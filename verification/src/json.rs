//! JSON values, and their text form by `serde_json`.

use crate::text::{joined, owned, same};
use vstd::prelude::*;

verus! {

// ---------------------------------------------------------------------
// Numbers
// ---------------------------------------------------------------------

/// A JSON number as `serde_json` holds it.
#[verifier::external_type_specification]
#[verifier::external_body]
pub struct ExNumber(serde_json::Number);

/// The three forms of a JSON number.
pub enum NumberView {
    /// An integer from zero up.
    PosInt(u64),
    /// An integer below zero.
    NegInt(i64),
    /// A finite double, by its bits.
    Float(u64),
}

/// What a `serde_json::Number` holds.
pub uninterp spec fn number_value(n: serde_json::Number) -> NumberView;

/// The number as an unsigned integer, if it is one.
pub open spec fn number_u64(n: NumberView) -> Option<u64> {
    match n {
        NumberView::PosInt(v) => Some(v),
        _ => None,
    }
}

/// The number as a signed integer, if it is one that fits.
pub open spec fn number_i64(n: NumberView) -> Option<i64> {
    match n {
        NumberView::PosInt(v) => if v <= i64::MAX {
            Some(v as i64)
        } else {
            None
        },
        NumberView::NegInt(v) => Some(v),
        NumberView::Float(_) => None,
    }
}

/// The number that a signed integer is.
pub open spec fn signed_number(n: i64) -> NumberView {
    if n < 0 {
        NumberView::NegInt(n)
    } else {
        NumberView::PosInt(n as u64)
    }
}

/// `serde_json::Number::as_u64` gives the integer of a number from zero up and
/// nothing for any other.
pub assume_specification[ serde_json::Number::as_u64 ](n: &serde_json::Number) -> (r: Option<u64>)
    ensures
        r == number_u64(number_value(*n)),
;

/// `serde_json::Number::as_i64` gives the integer of an integer that fits and
/// nothing for any other number.
pub assume_specification[ serde_json::Number::as_i64 ](n: &serde_json::Number) -> (r: Option<i64>)
    ensures
        r == number_i64(number_value(*n)),
;

/// The `Clone` of `serde_json::Number` copies what it holds.
pub assume_specification[ <serde_json::Number as Clone>::clone ](n: &serde_json::Number) -> (r:
    serde_json::Number)
    ensures
        number_value(r) == number_value(*n),
;

/// `serde_json::Number::as_f64` gives the double that a number holds; these are
/// its bits.
#[verifier::external_body]
pub(crate) fn double_bits(n: &serde_json::Number) -> (r: u64)
    ensures
        number_value(*n) matches NumberView::Float(bits) ==> r == bits,
{
    n.as_f64().unwrap_or_default().to_bits()
}

/// Whether two numbers hold the same.
fn number_equals(a: &serde_json::Number, b: &serde_json::Number) -> (r: bool)
    ensures
        r == (number_value(*a) == number_value(*b)),
{
    match (a.as_u64(), b.as_u64()) {
        (Some(x), Some(y)) => x == y,
        (None, None) => match (a.as_i64(), b.as_i64()) {
            (Some(x), Some(y)) => x == y,
            (None, None) => double_bits(a) == double_bits(b),
            _ => false,
        },
        _ => false,
    }
}

/// `serde_json::Number::from` makes a number of an unsigned integer.
#[verifier::external_body]
fn number_from_u64(n: u64) -> (r: serde_json::Number)
    ensures
        number_value(r) == NumberView::PosInt(n),
{
    serde_json::Number::from(n)
}

/// `serde_json::Number::from` makes a number of a signed integer, in the form
/// that its sign calls for.
#[verifier::external_body]
fn number_from_i64(n: i64) -> (r: serde_json::Number)
    ensures
        number_value(r) == signed_number(n),
{
    serde_json::Number::from(n)
}

/// `serde_json::Number::from_f64` on the double nearest to an unsigned integer,
/// which is finite. That nearest to zero has no bit set.
#[verifier::external_body]
fn double_from_u64(n: u64) -> (r: Option<serde_json::Number>)
    ensures
        r is Some,
        number_value(r->0) is Float,
        n == 0 ==> number_value(r->0) == NumberView::Float(0),
{
    serde_json::Number::from_f64(serde_json::Number::from(n).as_f64().unwrap_or_default())
}

// ---------------------------------------------------------------------
// Values
// ---------------------------------------------------------------------

/// A JSON value, as contracts speak of it.
pub enum JsonView {
    Null,
    Bool(bool),
    Number(NumberView),
    Str(Seq<char>),
    Array(Seq<JsonView>),
    Object(Map<Seq<char>, JsonView>),
}

/// A JSON value.
#[derive(Debug, PartialEq)]
pub enum Json {
    Null,
    Bool(bool),
    Number(serde_json::Number),
    Str(String),
    Array(Vec<Json>),
    Object(JsonMap),
}

/// The members of a JSON object. Each name occurs once.
#[derive(Debug, PartialEq)]
pub struct JsonMap {
    entries: Vec<(String, Json)>,
}

/// The model of a value.
pub open spec fn json_view(j: Json) -> JsonView
    decreases j,
{
    match j {
        Json::Null => JsonView::Null,
        Json::Bool(b) => JsonView::Bool(b),
        Json::Number(n) => JsonView::Number(number_value(n)),
        Json::Str(s) => JsonView::Str(s@),
        Json::Array(v) => JsonView::Array(
            Seq::new(
                v@.len(),
                |i: int|
                    if 0 <= i < v@.len() {
                        json_view(v@[i])
                    } else {
                        JsonView::Null
                    },
            ),
        ),
        Json::Object(m) => JsonView::Object(map_view(m)),
    }
}

/// The model of an object's members.
pub closed spec fn map_view(m: JsonMap) -> Map<Seq<char>, JsonView>
    decreases m,
{
    entries_view(m.entries@)
}

spec fn entries_view(es: Seq<(String, Json)>) -> Map<Seq<char>, JsonView>
    decreases es,
{
    if es.len() == 0 {
        Map::empty()
    } else {
        entries_view(es.subrange(0, es.len() - 1)).insert(
            es[es.len() - 1].0@,
            json_view(es[es.len() - 1].1),
        )
    }
}

spec fn distinct(es: Seq<(String, Json)>) -> bool {
    forall|i: int, j: int|
        0 <= i < j < es.len() ==> (#[trigger] es[i]).0@ != (#[trigger] es[j]).0@
}

impl View for Json {
    type V = JsonView;

    open spec fn view(&self) -> JsonView {
        json_view(*self)
    }
}

impl View for JsonMap {
    type V = Map<Seq<char>, JsonView>;

    open spec fn view(&self) -> Map<Seq<char>, JsonView> {
        map_view(*self)
    }
}

/// The models of a list of values.
pub open spec fn json_views(s: Seq<Json>) -> Seq<JsonView> {
    Seq::new(s.len(), |i: int| s[i]@)
}

proof fn lemma_absent(es: Seq<(String, Json)>, k: Seq<char>)
    requires
        forall|i: int| 0 <= i < es.len() ==> (#[trigger] es[i]).0@ != k,
    ensures
        !entries_view(es).contains_key(k),
    decreases es.len(),
{
    if es.len() > 0 {
        lemma_absent(es.subrange(0, es.len() - 1), k);
        assert(es[es.len() - 1].0@ != k);
    }
}

proof fn lemma_present(es: Seq<(String, Json)>, i: int)
    requires
        distinct(es),
        0 <= i < es.len(),
    ensures
        entries_view(es).contains_key(es[i].0@),
        entries_view(es)[es[i].0@] == json_view(es[i].1),
    decreases es.len(),
{
    if i < es.len() - 1 {
        lemma_present(es.subrange(0, es.len() - 1), i);
        assert(es[i].0@ != es[es.len() - 1].0@);
    }
}

proof fn lemma_update(es: Seq<(String, Json)>, i: int, e: (String, Json))
    requires
        distinct(es),
        0 <= i < es.len(),
        e.0@ == es[i].0@,
    ensures
        distinct(es.update(i, e)),
        entries_view(es.update(i, e)) == entries_view(es).insert(e.0@, json_view(e.1)),
    decreases es.len(),
{
    let n = es.len() - 1;
    let init = es.subrange(0, n);
    if i < n {
        lemma_update(init, i, e);
        assert(es.update(i, e).subrange(0, n) =~= init.update(i, e));
        assert(es[i].0@ != es[n].0@);
        assert(entries_view(es.update(i, e)) =~= entries_view(es).insert(e.0@, json_view(e.1)));
    } else {
        assert(es.update(i, e).subrange(0, n) =~= init);
        assert(entries_view(es.update(i, e)) =~= entries_view(es).insert(e.0@, json_view(e.1)));
    }
}

proof fn lemma_entries_finite(es: Seq<(String, Json)>)
    ensures
        entries_view(es).dom().finite(),
    decreases es.len(),
{
    if es.len() > 0 {
        lemma_entries_finite(es.subrange(0, es.len() - 1));
    }
}

impl JsonMap {
    #[verifier::type_invariant]
    spec fn inv(self) -> bool {
        distinct(self.entries@)
    }

    /// An object without members.
    pub fn new() -> (r: Self)
        ensures
            r@ == Map::<Seq<char>, JsonView>::empty(),
    {
        JsonMap { entries: Vec::new() }
    }

    fn find(&self, key: &str) -> (r: Option<usize>)
        ensures
            match r {
                Some(i) => i < self.entries@.len() && self.entries@[i as int].0@ == key@,
                None => !self@.contains_key(key@),
            },
    {
        let mut i: usize = 0;
        while i < self.entries.len()
            invariant
                i <= self.entries@.len(),
                forall|j: int| 0 <= j < i ==> (#[trigger] self.entries@[j]).0@ != key@,
            decreases self.entries@.len() - i,
        {
            if same(&self.entries[i].0, key) {
                return Some(i);
            }
            i += 1;
        }
        proof {
            lemma_absent(self.entries@, key@);
        }
        None
    }

    /// Sets a member, in place of the one of the same name if there is one.
    pub fn insert(&mut self, key: String, value: Json)
        ensures
            final(self)@ == old(self)@.insert(key@, value@),
    {
        proof {
            use_type_invariant(&*self);
        }
        let at = self.find(&key);
        let mut entries: Vec<(String, Json)> = Vec::new();
        std::mem::swap(&mut entries, &mut self.entries);
        let ghost before = entries@;
        match at {
            Some(i) => {
                proof {
                    lemma_update(before, i as int, (key, value));
                }
                entries.set(i, (key, value));
            },
            None => {
                proof {
                    assert forall|j: int| 0 <= j < before.len() implies (#[trigger] before[j]).0@
                        != key@ by {
                        lemma_present(before, j);
                    }
                    assert(before.push((key, value)).subrange(0, before.len() as int) =~= before);
                }
                entries.push((key, value));
            },
        }
        self.entries = entries;
    }

    /// The object with one more member, in place of the one of the same name if
    /// there is one.
    pub fn with(self, key: &str, value: Json) -> (r: Self)
        ensures
            r@ == self@.insert(key@, value@),
    {
        let mut m = self;
        m.insert(owned(key), value);
        m
    }

    /// The member of a name.
    pub fn get(&self, key: &str) -> (r: Option<&Json>)
        ensures
            match r {
                Some(v) => self@.contains_key(key@) && v@ == self@[key@],
                None => !self@.contains_key(key@),
            },
    {
        proof {
            use_type_invariant(self);
        }
        match self.find(key) {
            Some(i) => {
                proof {
                    lemma_present(self.entries@, i as int);
                }
                Some(&self.entries[i].1)
            },
            None => None,
        }
    }

    /// The members in the order in which they are held.
    pub closed spec fn pairs(self) -> Seq<(Seq<char>, JsonView)> {
        pairs_of(self.entries@)
    }

    /// The number of members.
    pub fn len(&self) -> (n: usize)
        ensures
            n == self.pairs().len(),
            names_distinct(self.pairs()),
            self@ == pairs_map(self.pairs()),
    {
        proof {
            use_type_invariant(self);
            lemma_pairs(self.entries@);
            let es = self.entries@;
            assert forall|i: int, j: int| 0 <= i < j < self.pairs().len() implies (
            #[trigger] self.pairs()[i]).0 != (#[trigger] self.pairs()[j]).0 by {
                assert(es[i].0@ != es[j].0@);
            }
        }
        self.entries.len()
    }

    /// The name of the member at a position.
    pub fn name(&self, i: usize) -> (r: &String)
        requires
            i < self.pairs().len(),
        ensures
            r@ == self.pairs()[i as int].0,
    {
        &self.entries[i].0
    }

    /// The value of the member at a position.
    pub fn value(&self, i: usize) -> (r: &Json)
        requires
            i < self.pairs().len(),
        ensures
            r@ == self.pairs()[i as int].1,
            decreases_to!(self => r),
    {
        &self.entries[i].1
    }

    /// Whether two objects have the same members.
    pub fn equals(&self, other: &JsonMap) -> (r: bool)
        ensures
            r == (self@ == other@),
        decreases self,
    {
        let n: usize = self.len();
        let mut i: usize = 0;
        while i < n
            invariant
                i <= n == self.pairs().len(),
                names_distinct(self.pairs()),
                self@ == pairs_map(self.pairs()),
                forall|j: int|
                    0 <= j < i ==> other@.contains_key((#[trigger] self.pairs()[j]).0)
                        && other@[self.pairs()[j].0] == self.pairs()[j].1,
            decreases n - i,
        {
            proof {
                lemma_pair_in_map(self.pairs(), i as int);
            }
            match other.get(self.name(i)) {
                Some(v) => {
                    if !self.value(i).equals(v) {
                        return false;
                    }
                },
                None => {
                    return false;
                },
            }
            i += 1;
        }
        let m: usize = other.len();
        let mut k: usize = 0;
        while k < m
            invariant
                k <= m == other.pairs().len(),
                names_distinct(other.pairs()),
                other@ == pairs_map(other.pairs()),
                forall|j: int|
                    0 <= j < k ==> self@.contains_key((#[trigger] other.pairs()[j]).0),
            decreases m - k,
        {
            proof {
                lemma_pair_in_map(other.pairs(), k as int);
            }
            if self.get(other.name(k)).is_none() {
                return false;
            }
            k += 1;
        }
        proof {
            assert forall|key: Seq<char>| #[trigger] self@.contains_key(key) implies other@.contains_key(
                key,
            ) && other@[key] == self@[key] by {
                let j = lemma_key_listed(self.pairs(), key);
                lemma_pair_in_map(self.pairs(), j);
            }
            assert forall|key: Seq<char>| #[trigger] other@.contains_key(key) implies self@.contains_key(
                key,
            ) by {
                let j = lemma_key_listed(other.pairs(), key);
            }
            assert(self@.dom() =~= other@.dom());
            assert(self@ =~= other@);
        }
        true
    }

    /// A copy with the same members in the same order.
    pub fn duplicate(&self) -> (r: Self)
        ensures
            r@ == self@,
            r.pairs() == self.pairs(),
        decreases self,
    {
        let mut entries: Vec<(String, Json)> = Vec::new();
        let mut i: usize = 0;
        proof {
            use_type_invariant(self);
        }
        while i < self.entries.len()
            invariant
                i <= self.entries@.len(),
                entries@.len() == i,
                distinct(self.entries@),
                forall|j: int|
                    0 <= j < i ==> (#[trigger] entries@[j]).0@ == self.entries@[j].0@
                        && json_view(entries@[j].1) == json_view(self.entries@[j].1),
            decreases self.entries@.len() - i,
        {
            let key = self.entries[i].0.clone();
            let value = self.entries[i].1.duplicate();
            entries.push((key, value));
            i += 1;
        }
        proof {
            assert(pairs_of(entries@) =~= pairs_of(self.entries@));
            lemma_pairs(entries@);
            lemma_pairs(self.entries@);
            let es = entries@;
            assert forall|a: int, b: int| 0 <= a < b < es.len() implies (#[trigger] es[a]).0@ != (
            #[trigger] es[b]).0@ by {
                assert(self.entries@[a].0@ != self.entries@[b].0@);
            }
        }
        JsonMap { entries }
    }
}

spec fn pairs_of(es: Seq<(String, Json)>) -> Seq<(Seq<char>, JsonView)> {
    Seq::new(es.len(), |i: int| (es[i].0@, json_view(es[i].1)))
}

/// Whether no name occurs twice.
pub open spec fn names_distinct(s: Seq<(Seq<char>, JsonView)>) -> bool {
    forall|i: int, j: int| 0 <= i < j < s.len() ==> (#[trigger] s[i]).0 != (#[trigger] s[j]).0
}

/// The members listed by `s`; of two with one name the later counts.
pub open spec fn pairs_map(s: Seq<(Seq<char>, JsonView)>) -> Map<Seq<char>, JsonView>
    decreases s.len(),
{
    if s.len() == 0 {
        Map::empty()
    } else {
        pairs_map(s.drop_last()).insert(s.last().0, s.last().1)
    }
}

proof fn lemma_pairs(es: Seq<(String, Json)>)
    ensures
        entries_view(es) == pairs_map(pairs_of(es)),
    decreases es.len(),
{
    if es.len() > 0 {
        let init = es.subrange(0, es.len() - 1);
        lemma_pairs(init);
        assert(pairs_of(es).drop_last() =~= pairs_of(init));
    }
}

impl Json {
    /// A copy of the value.
    pub fn duplicate(&self) -> (r: Self)
        ensures
            r@ == self@,
        decreases self,
    {
        match self {
            Json::Null => Json::Null,
            Json::Bool(b) => Json::Bool(*b),
            Json::Number(n) => Json::Number(n.clone()),
            Json::Str(s) => Json::Str(s.clone()),
            Json::Array(v) => {
                let mut out: Vec<Json> = Vec::new();
                let mut i: usize = 0;
                while i < v.len()
                    invariant
                        i <= v@.len(),
                        out@.len() == i,
                        *self == Json::Array(*v),
                        forall|j: int| 0 <= j < i ==> (#[trigger] out@[j])@ == v@[j]@,
                    decreases v@.len() - i,
                {
                    assert(decreases_to!(self => self->Array_0));
                    assert(decreases_to!(v@ => v@[i as int]));
                    out.push(v[i].duplicate());
                    i += 1;
                }
                let r = Json::Array(out);
                assert(r@->Array_0 =~= self@->Array_0);
                r
            },
            Json::Object(m) => Json::Object(m.duplicate()),
        }
    }

    /// Whether two values hold the same, whatever the order of members.
    pub fn equals(&self, other: &Json) -> (r: bool)
        ensures
            r == (self@ == other@),
        decreases self,
    {
        match (self, other) {
            (Json::Null, Json::Null) => true,
            (Json::Bool(a), Json::Bool(b)) => *a == *b,
            (Json::Number(a), Json::Number(b)) => number_equals(a, b),
            (Json::Str(a), Json::Str(b)) => same(a, b),
            (Json::Array(a), Json::Array(b)) => {
                if a.len() != b.len() {
                    assert(self@->Array_0.len() != other@->Array_0.len());
                    return false;
                }
                let mut i: usize = 0;
                while i < a.len()
                    invariant
                        i <= a@.len(),
                        a@.len() == b@.len(),
                        *self == Json::Array(*a),
                        *other == Json::Array(*b),
                        forall|j: int| 0 <= j < i ==> (#[trigger] a@[j])@ == b@[j]@,
                    decreases a@.len() - i,
                {
                    assert(decreases_to!(self => self->Array_0));
                    assert(decreases_to!(a@ => a@[i as int]));
                    if !a[i].equals(&b[i]) {
                        assert(self@->Array_0[i as int] != other@->Array_0[i as int]);
                        return false;
                    }
                    i += 1;
                }
                assert(self@->Array_0 =~= other@->Array_0);
                true
            },
            (Json::Object(a), Json::Object(b)) => {
                assert(decreases_to!(self => self->Object_0));
                a.equals(b)
            },
            _ => false,
        }
    }

    /// A JSON string.
    pub fn text(s: &str) -> (r: Self)
        ensures
            r@ == JsonView::Str(s@),
    {
        Json::Str(owned(s))
    }

    /// A JSON integer.
    pub fn uint(n: u64) -> (r: Self)
        ensures
            r@ == JsonView::Number(NumberView::PosInt(n)),
    {
        Json::Number(number_from_u64(n))
    }

    /// A JSON integer with a sign.
    pub fn sint(n: i64) -> (r: Self)
        ensures
            r@ == JsonView::Number(signed_number(n)),
    {
        Json::Number(number_from_i64(n))
    }

    /// The JSON number zero, as a double.
    pub fn zero() -> (r: Self)
        ensures
            r@ == JsonView::Number(NumberView::Float(0)),
    {
        match double_from_u64(0) {
            Some(n) => Json::Number(n),
            None => Json::Null,
        }
    }

    /// A JSON array.
    pub fn array(items: Vec<Json>) -> (r: Self)
        ensures
            r@ == JsonView::Array(json_views(items@)),
    {
        let r = Json::Array(items);
        assert(r@->Array_0 =~= json_views(items@));
        r
    }

    /// The JSON object with these members.
    pub fn object(members: JsonMap) -> (r: Self)
        ensures
            r@ == JsonView::Object(members@),
    {
        Json::Object(members)
    }

    /// The member of a name, where the value is an object that has one.
    pub fn get(&self, key: &str) -> (r: Option<&Json>)
        ensures
            match r {
                Some(v) => self@.field(key@) == Some(v@),
                None => self@.field(key@) is None,
            },
    {
        match self {
            Json::Object(m) => m.get(key),
            _ => None,
        }
    }

    /// The text of a JSON string.
    pub fn as_str(&self) -> (r: Option<&str>)
        ensures
            match r {
                Some(s) => self@.as_text() == Some(s@),
                None => self@.as_text() is None,
            },
    {
        match self {
            Json::Str(s) => Some(s.as_str()),
            _ => None,
        }
    }

    /// The unsigned integer of a JSON number that is one.
    pub fn as_u64(&self) -> (r: Option<u64>)
        ensures
            r == self@.as_uint(),
    {
        match self {
            Json::Number(n) => n.as_u64(),
            _ => None,
        }
    }

    /// The truth value of a JSON boolean.
    pub fn as_bool(&self) -> (r: Option<bool>)
        ensures
            r == self@.as_truth(),
    {
        match self {
            Json::Bool(b) => Some(*b),
            _ => None,
        }
    }

    /// The items of a JSON array.
    pub fn as_array(&self) -> (r: Option<&Vec<Json>>)
        ensures
            match r {
                Some(v) => self@.as_items() == Some(json_views(v@)),
                None => self@.as_items() is None,
            },
    {
        match self {
            Json::Array(v) => {
                assert(self@->Array_0 =~= json_views(v@));
                Some(v)
            },
            _ => None,
        }
    }

    /// Whether the value is `null`.
    pub fn is_null(&self) -> (r: bool)
        ensures
            r == (self@ is Null),
    {
        match self {
            Json::Null => true,
            _ => false,
        }
    }
}

/// An object with one member.
pub open spec fn object1(k: Seq<char>, v: JsonView) -> JsonView {
    JsonView::Object(Map::<Seq<char>, JsonView>::empty().insert(k, v))
}

/// An object with two members.
pub open spec fn object2(k1: Seq<char>, v1: JsonView, k2: Seq<char>, v2: JsonView) -> JsonView {
    JsonView::Object(Map::<Seq<char>, JsonView>::empty().insert(k1, v1).insert(k2, v2))
}

/// An object with three members.
pub open spec fn object3(
    k1: Seq<char>,
    v1: JsonView,
    k2: Seq<char>,
    v2: JsonView,
    k3: Seq<char>,
    v3: JsonView,
) -> JsonView {
    JsonView::Object(
        Map::<Seq<char>, JsonView>::empty().insert(k1, v1).insert(k2, v2).insert(k3, v3),
    )
}

/// Makes an object with one member.
pub fn make_object1(k: &str, v: Json) -> (r: Json)
    ensures
        r@ == object1(k@, v@),
{
    Json::object(JsonMap::new().with(k, v))
}

/// Makes an object with two members.
pub fn make_object2(k1: &str, v1: Json, k2: &str, v2: Json) -> (r: Json)
    ensures
        r@ == object2(k1@, v1@, k2@, v2@),
{
    Json::object(JsonMap::new().with(k1, v1).with(k2, v2))
}

/// Makes an object with three members.
pub fn make_object3(k1: &str, v1: Json, k2: &str, v2: Json, k3: &str, v3: Json) -> (r: Json)
    ensures
        r@ == object3(k1@, v1@, k2@, v2@, k3@, v3@),
{
    Json::object(JsonMap::new().with(k1, v1).with(k2, v2).with(k3, v3))
}

impl JsonView {
    /// The member of a name, where the value is an object that has one.
    pub open spec fn field(self, key: Seq<char>) -> Option<JsonView> {
        match self {
            JsonView::Object(m) => if m.contains_key(key) {
                Some(m[key])
            } else {
                None
            },
            _ => None,
        }
    }

    /// The text of a JSON string.
    pub open spec fn as_text(self) -> Option<Seq<char>> {
        match self {
            JsonView::Str(s) => Some(s),
            _ => None,
        }
    }

    /// The unsigned integer of a JSON number that is one.
    pub open spec fn as_uint(self) -> Option<u64> {
        match self {
            JsonView::Number(n) => number_u64(n),
            _ => None,
        }
    }

    /// The truth value of a JSON boolean.
    pub open spec fn as_truth(self) -> Option<bool> {
        match self {
            JsonView::Bool(b) => Some(b),
            _ => None,
        }
    }

    /// The items of a JSON array.
    pub open spec fn as_items(self) -> Option<Seq<JsonView>> {
        match self {
            JsonView::Array(s) => Some(s),
            _ => None,
        }
    }
}

impl Clone for Json {
    fn clone(&self) -> (r: Self)
        ensures
            r@ == self@,
    {
        self.duplicate()
    }
}

impl Clone for JsonMap {
    fn clone(&self) -> (r: Self)
        ensures
            r@ == self@,
            r.pairs() == self.pairs(),
    {
        self.duplicate()
    }
}

// ---------------------------------------------------------------------
// Text
// ---------------------------------------------------------------------

/// A JSON value as `serde_json` holds it.
#[verifier::external_type_specification]
#[verifier::external_body]
pub struct ExValue(serde_json::Value);

/// What a `serde_json::Value` holds.
pub uninterp spec fn value_json(v: serde_json::Value) -> JsonView;

/// What `serde_json` makes of a text: the value it stands for, or the words of
/// the error.
pub uninterp spec fn parsed_json(text: Seq<char>) -> Result<JsonView, Seq<char>>;

/// What `serde_json` makes of bytes: the value they stand for, or the words of
/// the error.
pub uninterp spec fn parsed_bytes(bytes: Seq<u8>) -> Result<JsonView, Seq<char>>;

/// What `serde_json` makes of a text that should be an object: its members, or
/// the words of the error.
pub uninterp spec fn parsed_object(text: Seq<char>) -> Result<
    Map<Seq<char>, JsonView>,
    Seq<char>,
>;

/// The compact text that `serde_json` writes for a value.
pub uninterp spec fn json_text(v: JsonView) -> Seq<char>;

/// One layer of a `serde_json::Value`.
enum Layer {
    Null,
    Bool(bool),
    Number(serde_json::Number),
    Str(String),
    Array(Vec<serde_json::Value>),
    Object(Vec<(String, serde_json::Value)>),
}

spec fn layer_pairs(es: Seq<(String, serde_json::Value)>) -> Seq<(Seq<char>, JsonView)> {
    Seq::new(es.len(), |i: int| (es[i].0@, value_json(es[i].1)))
}

spec fn layer_view(l: Layer) -> JsonView {
    match l {
        Layer::Null => JsonView::Null,
        Layer::Bool(b) => JsonView::Bool(b),
        Layer::Number(n) => JsonView::Number(number_value(n)),
        Layer::Str(s) => JsonView::Str(s@),
        Layer::Array(v) => JsonView::Array(Seq::new(v@.len(), |i: int| value_json(v@[i]))),
        Layer::Object(es) => JsonView::Object(pairs_map(layer_pairs(es@))),
    }
}

/// Takes one layer off a `serde_json::Value`: its variant and what the variant
/// holds. The members of an object come out one by one, each name once.
#[verifier::external_body]
fn open_value(v: serde_json::Value) -> (l: Layer)
    ensures
        layer_view(l) == value_json(v),
        l matches Layer::Object(es) ==> names_distinct(layer_pairs(es@)),
{
    match v {
        serde_json::Value::Null => Layer::Null,
        serde_json::Value::Bool(b) => Layer::Bool(b),
        serde_json::Value::Number(n) => Layer::Number(n),
        serde_json::Value::String(s) => Layer::Str(s),
        serde_json::Value::Array(a) => Layer::Array(a),
        serde_json::Value::Object(m) => Layer::Object(m.into_iter().collect()),
    }
}

/// Puts one layer round `serde_json` values. The members of an object, of which no
/// two share a name, are collected into a `serde_json::Map`.
#[verifier::external_body]
fn close_value(l: Layer) -> (v: serde_json::Value)
    requires
        l matches Layer::Object(es) ==> names_distinct(layer_pairs(es@)),
    ensures
        value_json(v) == layer_view(l),
{
    match l {
        Layer::Null => serde_json::Value::Null,
        Layer::Bool(b) => serde_json::Value::Bool(b),
        Layer::Number(n) => serde_json::Value::Number(n),
        Layer::Str(s) => serde_json::Value::String(s),
        Layer::Array(a) => serde_json::Value::Array(a),
        Layer::Object(es) => serde_json::Value::Object(es.into_iter().collect()),
    }
}

/// `serde_json::from_str` on a text, with the error as its words.
#[verifier::external_body]
fn value_from_text(text: &str) -> (r: Result<serde_json::Value, String>)
    ensures
        match r {
            Ok(v) => parsed_json(text@) == Ok::<JsonView, Seq<char>>(value_json(v)),
            Err(e) => parsed_json(text@) == Err::<JsonView, Seq<char>>(e@),
        },
{
    serde_json::from_str(text).map_err(|e: serde_json::Error| e.to_string())
}

/// `serde_json::from_slice` on bytes, with the error as its words.
#[verifier::external_body]
fn value_from_bytes(bytes: &[u8]) -> (r: Result<serde_json::Value, String>)
    ensures
        match r {
            Ok(v) => parsed_bytes(bytes@) == Ok::<JsonView, Seq<char>>(value_json(v)),
            Err(e) => parsed_bytes(bytes@) == Err::<JsonView, Seq<char>>(e@),
        },
{
    serde_json::from_slice(bytes).map_err(|e: serde_json::Error| e.to_string())
}

/// `serde_json::from_str` on a text that should be an object, with the error as
/// its words. Where the text is one, it stands for the same value as any text.
#[verifier::external_body]
fn members_from_text(text: &str) -> (r: Result<Vec<(String, serde_json::Value)>, String>)
    ensures
        match r {
            Ok(es) => parsed_object(text@) == Ok::<Map<Seq<char>, JsonView>, Seq<char>>(
                pairs_map(layer_pairs(es@)),
            ) && names_distinct(layer_pairs(es@)) && parsed_json(text@) == Ok::<
                JsonView,
                Seq<char>,
            >(JsonView::Object(pairs_map(layer_pairs(es@)))),
            Err(e) => parsed_object(text@) == Err::<Map<Seq<char>, JsonView>, Seq<char>>(e@)
                && !(parsed_json(text@) matches Ok(JsonView::Object(_))),
        },
{
    match serde_json::from_str::<serde_json::Map<String, serde_json::Value>>(text) {
        Ok(m) => Ok(m.into_iter().collect()),
        Err(e) => Err(e.to_string()),
    }
}

/// Whether a text is read as a value.
pub open spec fn stands_for(text: Seq<char>, v: JsonView) -> bool {
    parsed_json(text) == Ok::<JsonView, Seq<char>>(v)
}

/// Whether a value without doubles is nested at most `room` deep.
pub open spec fn rereadable(v: JsonView, room: nat) -> bool
    decreases room,
{
    match v {
        JsonView::Number(NumberView::Float(_)) => false,
        JsonView::Number(NumberView::NegInt(n)) => n < 0,
        JsonView::Array(items) => room > 0 && forall|i: int|
            0 <= i < items.len() ==> rereadable(#[trigger] items[i], (room - 1) as nat),
        JsonView::Object(m) => room > 0 && forall|k: Seq<char>| #[trigger]
            m.contains_key(k) ==> rereadable(m[k], (room - 1) as nat),
        _ => true,
    }
}

/// `serde_json::to_string` on a value, which has no way to fail there. Read
/// again, the text gives the value back, if that holds no doubles and is nested
/// at most 127 deep: the parser stops one level below, and it may miss the last
/// bit of a double.
#[verifier::external_body]
fn value_to_text(v: &serde_json::Value) -> (r: String)
    ensures
        r@ == json_text(value_json(*v)),
        rereadable(value_json(*v), 127) ==> stands_for(r@, value_json(*v)),
{
    serde_json::to_string(v).unwrap_or_default()
}

/// The text of each member: its name, a colon and its value.
pub open spec fn member_texts(pairs: Seq<(Seq<char>, JsonView)>) -> Seq<Seq<char>> {
    Seq::new(
        pairs.len(),
        |i: int| json_text(JsonView::Str(pairs[i].0)) + ":"@ + json_text(pairs[i].1),
    )
}

/// The compact text of an object whose members stand in a given order.
pub open spec fn record_text(pairs: Seq<(Seq<char>, JsonView)>) -> Seq<char> {
    "{"@ + joined(member_texts(pairs), ","@) + "}"@
}

/// `collect_map` of `serde_json::Serializer` on names and values, which has no way
/// to fail there: it writes the members in the order in which they come. Read
/// again, the text gives an object with these members, if no two share a name and
/// it holds no doubles and is nested at most 127 deep.
#[verifier::external_body]
fn members_to_text(es: &Vec<(String, serde_json::Value)>) -> (r: String)
    ensures
        r@ == record_text(layer_pairs(es@)),
        names_distinct(layer_pairs(es@)) && rereadable(
            JsonView::Object(pairs_map(layer_pairs(es@))),
            127,
        ) ==> stands_for(r@, JsonView::Object(pairs_map(layer_pairs(es@)))),
{
    let mut out = Vec::new();
    let members = es.iter().map(|e| (&e.0, &e.1));
    let _ = serde::Serializer::collect_map(&mut serde_json::Serializer::new(&mut out), members);
    String::from_utf8(out).unwrap_or_default()
}

pub proof fn lemma_pairs_finite(s: Seq<(Seq<char>, JsonView)>)
    ensures
        pairs_map(s).dom().finite(),
    decreases s.len(),
{
    if s.len() > 0 {
        lemma_pairs_finite(s.drop_last());
    }
}

pub proof fn lemma_pair_in_map(s: Seq<(Seq<char>, JsonView)>, i: int)
    requires
        names_distinct(s),
        0 <= i < s.len(),
    ensures
        pairs_map(s).contains_key(s[i].0),
        pairs_map(s)[s[i].0] == s[i].1,
    decreases s.len(),
{
    if i < s.len() - 1 {
        assert(names_distinct(s.drop_last()));
        lemma_pair_in_map(s.drop_last(), i);
        assert(s[i].0 != s[s.len() - 1].0);
    }
}

/// Every name of the map is listed.
pub proof fn lemma_key_listed(s: Seq<(Seq<char>, JsonView)>, key: Seq<char>) -> (i: int)
    requires
        pairs_map(s).contains_key(key),
    ensures
        0 <= i < s.len(),
        s[i].0 == key,
    decreases s.len(),
{
    if s.last().0 == key {
        s.len() - 1
    } else {
        lemma_key_listed(s.drop_last(), key)
    }
}

fn from_value(v: serde_json::Value) -> (r: Json)
    ensures
        r@ == value_json(v),
    decreases value_json(v),
{
    let ghost whole = value_json(v);
    match open_value(v) {
        Layer::Null => Json::Null,
        Layer::Bool(b) => Json::Bool(b),
        Layer::Number(n) => Json::Number(n),
        Layer::Str(s) => Json::Str(s),
        Layer::Array(a) => {
            let ghost items = a@;
            let mut out: Vec<Json> = Vec::new();
            for x in it: a
                invariant
                    it.seq() == items,
                    out@.len() == it.index(),
                    whole == value_json(v),
                    whole is Array,
                    whole->Array_0.len() == items.len(),
                    forall|j: int| 0 <= j < items.len() ==> whole->Array_0[j] == value_json(#[trigger] items[j]),
                    forall|j: int|
                        0 <= j < it.index() ==> (#[trigger] out@[j])@ == value_json(items[j]),
            {
                proof {
                    assert(x == items[it.index()]);
                    assert(decreases_to!(whole => whole->Array_0));
                    assert(decreases_to!(whole->Array_0 => whole->Array_0[it.index()]));
                }
                out.push(from_value(x));
            }
            let r = Json::Array(out);
            assert(r@->Array_0 =~= whole->Array_0);
            r
        },
        Layer::Object(es) => {
            let ghost items = es@;
            let ghost pairs = layer_pairs(items);
            let mut m = JsonMap::new();
            for e in it: es
                invariant
                    it.seq() == items,
                    pairs == layer_pairs(items),
                    names_distinct(pairs),
                    whole == value_json(v),
                    whole == JsonView::Object(pairs_map(pairs)),
                    m@ == pairs_map(pairs.take(it.index())),
            {
                proof {
                    let i = it.index();
                    assert(e == items[i]);
                    lemma_pair_in_map(pairs, i);
                    lemma_pairs_finite(pairs);
                    assert(decreases_to!(whole => whole->Object_0));
                    assert(decreases_to!(whole->Object_0 => whole->Object_0[pairs[i].0]));
                    assert(pairs.take(i + 1).drop_last() =~= pairs.take(i));
                }
                let (key, value) = e;
                m.insert(key, from_value(value));
            }
            assert(pairs.take(pairs.len() as int) =~= pairs);
            Json::Object(m)
        },
    }
}

impl Json {
    fn to_value(&self) -> (r: serde_json::Value)
        ensures
            value_json(r) == self@,
        decreases self,
    {
        match self {
            Json::Null => close_value(Layer::Null),
            Json::Bool(b) => close_value(Layer::Bool(*b)),
            Json::Number(n) => close_value(Layer::Number(n.clone())),
            Json::Str(s) => close_value(Layer::Str(s.clone())),
            Json::Array(v) => {
                let mut out: Vec<serde_json::Value> = Vec::new();
                let mut i: usize = 0;
                while i < v.len()
                    invariant
                        i <= v@.len(),
                        out@.len() == i,
                        *self == Json::Array(*v),
                        forall|j: int| 0 <= j < i ==> value_json(#[trigger] out@[j]) == v@[j]@,
                    decreases v@.len() - i,
                {
                    assert(decreases_to!(self => self->Array_0));
                    assert(decreases_to!(v@ => v@[i as int]));
                    out.push(v[i].to_value());
                    i += 1;
                }
                let r = close_value(Layer::Array(out));
                assert(value_json(r)->Array_0 =~= self@->Array_0);
                r
            },
            Json::Object(m) => {
                let mut out: Vec<(String, serde_json::Value)> = Vec::new();
                let n: usize = m.len();
                let mut i: usize = 0;
                while i < n
                    invariant
                        i <= n == m.pairs().len(),
                        out@.len() == i,
                        *self == Json::Object(*m),
                        forall|j: int|
                            0 <= j < i ==> (#[trigger] out@[j]).0@ == m.pairs()[j].0 && value_json(
                                out@[j].1,
                            ) == m.pairs()[j].1,
                    decreases n - i,
                {
                    assert(decreases_to!(self => self->Object_0));
                    let value = m.value(i).to_value();
                    out.push((m.name(i).clone(), value));
                    i += 1;
                }
                assert(layer_pairs(out@) =~= m.pairs());
                close_value(Layer::Object(out))
            },
        }
    }

    /// Reads JSON bytes; the error carries the parser's words.
    pub fn parse_bytes(bytes: &[u8]) -> (r: Result<Json, String>)
        ensures
            match r {
                Ok(j) => parsed_bytes(bytes@) == Ok::<JsonView, Seq<char>>(j@),
                Err(e) => parsed_bytes(bytes@) == Err::<JsonView, Seq<char>>(e@),
            },
    {
        match value_from_bytes(bytes) {
            Ok(v) => Ok(from_value(v)),
            Err(e) => Err(e),
        }
    }

    /// Reads a JSON text that should be an object; the error carries the
    /// parser's words.
    pub fn parse_object(text: &str) -> (r: Result<JsonMap, String>)
        ensures
            match r {
                Ok(m) => parsed_object(text@) == Ok::<Map<Seq<char>, JsonView>, Seq<char>>(m@)
                    && parsed_json(text@) == Ok::<JsonView, Seq<char>>(JsonView::Object(m@)),
                Err(e) => parsed_object(text@) == Err::<Map<Seq<char>, JsonView>, Seq<char>>(e@)
                    && !(parsed_json(text@) matches Ok(JsonView::Object(_))),
            },
    {
        match members_from_text(text) {
            Ok(es) => {
                let ghost items = es@;
                let ghost pairs = layer_pairs(items);
                let mut m = JsonMap::new();
                for e in it: es
                    invariant
                        it.seq() == items,
                        pairs == layer_pairs(items),
                        m@ == pairs_map(pairs.take(it.index())),
                {
                    proof {
                        let i = it.index();
                        assert(e == items[i]);
                        assert(pairs.take(i + 1).drop_last() =~= pairs.take(i));
                    }
                    let (key, value) = e;
                    m.insert(key, from_value(value));
                }
                assert(pairs.take(pairs.len() as int) =~= pairs);
                Ok(m)
            },
            Err(e) => Err(e),
        }
    }

    /// Reads a JSON text; the error carries the parser's words.
    pub fn parse(text: &str) -> (r: Result<Json, String>)
        ensures
            match r {
                Ok(j) => parsed_json(text@) == Ok::<JsonView, Seq<char>>(j@),
                Err(e) => parsed_json(text@) == Err::<JsonView, Seq<char>>(e@),
            },
    {
        match value_from_text(text) {
            Ok(v) => Ok(from_value(v)),
            Err(e) => Err(e),
        }
    }

    /// The compact text of the value, with the members of objects in the order
    /// of their names.
    pub fn to_text(&self) -> (r: String)
        ensures
            r@ == json_text(self@),
            rereadable(self@, 127) ==> stands_for(r@, self@),
    {
        value_to_text(&self.to_value())
    }
}

/// The names and values of some members.
pub open spec fn member_views(members: Seq<(&str, Json)>) -> Seq<(Seq<char>, JsonView)> {
    Seq::new(members.len(), |i: int| (members[i].0@, members[i].1@))
}

/// The compact text of an object, with its members in the order given.
pub fn record_to_text(members: &Vec<(&str, Json)>) -> (r: String)
    ensures
        r@ == record_text(member_views(members@)),
        names_distinct(member_views(members@)) && rereadable(
            JsonView::Object(pairs_map(member_views(members@))),
            127,
        ) ==> stands_for(r@, JsonView::Object(pairs_map(member_views(members@)))),
{
    let mut out: Vec<(String, serde_json::Value)> = Vec::new();
    let mut i: usize = 0;
    while i < members.len()
        invariant
            i <= members@.len(),
            out@.len() == i,
            forall|j: int|
                0 <= j < i ==> (#[trigger] out@[j]).0@ == members@[j].0@ && value_json(out@[j].1)
                    == members@[j].1@,
        decreases members@.len() - i,
    {
        out.push((owned(members[i].0), members[i].1.to_value()));
        i += 1;
    }
    assert(layer_pairs(out@) =~= member_views(members@));
    members_to_text(&out)
}

} // verus!
