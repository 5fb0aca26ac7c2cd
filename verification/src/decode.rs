//! Reading the members of JSON objects.

use crate::json::{
    json_views, lemma_key_listed, lemma_pair_in_map, names_distinct, pairs_map, Json, JsonMap,
    JsonView,
};
use crate::text::{opt_text, owned};
use vstd::prelude::*;

verus! {

/// A record may be written as an array of its members, in their order and without
/// names: such an array stands for the object with these names. Members at the end
/// may be missing, but not one of the first `required`.
pub open spec fn placed(v: JsonView, names: Seq<Seq<char>>, required: nat) -> JsonView {
    match v {
        JsonView::Array(items) => if required <= items.len() <= names.len() {
            JsonView::Object(pairs_map(Seq::new(items.len(), |i: int| (names[i], items[i]))))
        } else {
            v
        },
        _ => v,
    }
}

fn place(v: &Json, names: &Vec<&str>, required: usize) -> (r: Option<Json>)
    ensures
        ({
            let texts = Seq::new(names@.len(), |i: int| names@[i]@);
            match r {
                Some(p) => p@ == placed(v@, texts, required as nat),
                None => placed(v@, texts, required as nat) == v@,
            }
        }),
{
    match v {
        Json::Array(items) => {
            if items.len() < required || items.len() > names.len() {
                return None;
            }
            let ghost texts = Seq::new(names@.len(), |i: int| names@[i]@);
            let ghost all = json_views(items@);
            let ghost pairs = Seq::new(all.len(), |i: int| (texts[i], all[i]));
            assert(v@->Array_0 =~= all);
            let mut m = JsonMap::new();
            let mut i: usize = 0;
            assert(pairs.take(0) =~= Seq::<(Seq<char>, JsonView)>::empty());
            while i < items.len()
                invariant
                    i <= items@.len() <= names@.len(),
                    all == json_views(items@),
                    texts == Seq::new(names@.len(), |i: int| names@[i]@),
                    pairs == Seq::new(all.len(), |i: int| (texts[i], all[i])),
                    m@ == pairs_map(pairs.take(i as int)),
                decreases items@.len() - i,
            {
                m.insert(owned(names[i]), items[i].duplicate());
                i += 1;
                assert(pairs.take(i as int).drop_last() =~= pairs.take(i - 1));
            }
            assert(pairs.take(pairs.len() as int) =~= pairs);
            Some(Json::object(m))
        },
        _ => None,
    }
}

/// The object that an array of one member at most stands for.
pub fn place1(v: &Json, a: &str, required: usize) -> (r: Option<Json>)
    ensures
        match r {
            Some(p) => p@ == placed(v@, seq![a@], required as nat),
            None => placed(v@, seq![a@], required as nat) == v@,
        },
{
    let mut names: Vec<&str> = Vec::new();
    names.push(a);
    assert(Seq::new(names@.len(), |i: int| names@[i]@) =~= seq![a@]);
    place(v, &names, required)
}

/// The object that an array of two members at most stands for.
pub fn place2(v: &Json, a: &str, b: &str, required: usize) -> (r: Option<Json>)
    ensures
        match r {
            Some(p) => p@ == placed(v@, seq![a@, b@], required as nat),
            None => placed(v@, seq![a@, b@], required as nat) == v@,
        },
{
    let mut names: Vec<&str> = Vec::new();
    names.push(a);
    names.push(b);
    assert(Seq::new(names@.len(), |i: int| names@[i]@) =~= seq![a@, b@]);
    place(v, &names, required)
}

/// The object that an array of three members at most stands for.
pub fn place3(v: &Json, a: &str, b: &str, c: &str, required: usize) -> (r: Option<Json>)
    ensures
        match r {
            Some(p) => p@ == placed(v@, seq![a@, b@, c@], required as nat),
            None => placed(v@, seq![a@, b@, c@], required as nat) == v@,
        },
{
    let mut names: Vec<&str> = Vec::new();
    names.push(a);
    names.push(b);
    names.push(c);
    assert(Seq::new(names@.len(), |i: int| names@[i]@) =~= seq![a@, b@, c@]);
    place(v, &names, required)
}

/// The object that an array of four members at most stands for.
pub fn place4(v: &Json, a: &str, b: &str, c: &str, d: &str, required: usize) -> (r: Option<Json>)
    ensures
        match r {
            Some(p) => p@ == placed(v@, seq![a@, b@, c@, d@], required as nat),
            None => placed(v@, seq![a@, b@, c@, d@], required as nat) == v@,
        },
{
    let mut names: Vec<&str> = Vec::new();
    names.push(a);
    names.push(b);
    names.push(c);
    names.push(d);
    assert(Seq::new(names@.len(), |i: int| names@[i]@) =~= seq![a@, b@, c@, d@]);
    place(v, &names, required)
}

/// A member that must be a string.
pub open spec fn text_at(v: JsonView, key: Seq<char>) -> Option<Seq<char>> {
    match v.field(key) {
        Some(JsonView::Str(s)) => Some(s),
        _ => None,
    }
}

/// A member that may be missing or `null`, and is a string otherwise.
pub open spec fn opt_text_at(v: JsonView, key: Seq<char>) -> Option<Option<Seq<char>>> {
    match v.field(key) {
        None => Some(None),
        Some(JsonView::Null) => Some(None),
        Some(JsonView::Str(s)) => Some(Some(s)),
        _ => None,
    }
}

/// A member that counts as empty if it is missing, and is a string otherwise.
pub open spec fn text_or_empty_at(v: JsonView, key: Seq<char>) -> Option<Seq<char>> {
    match v.field(key) {
        None => Some(Seq::empty()),
        Some(JsonView::Str(s)) => Some(s),
        _ => None,
    }
}

/// A member that must be an integer of 64 bits.
pub open spec fn u64_at(v: JsonView, key: Seq<char>) -> Option<u64> {
    match v.field(key) {
        Some(n) => n.as_uint(),
        None => None,
    }
}

/// A member that counts as zero if it is missing, and is an integer of 64 bits
/// otherwise.
pub open spec fn u64_or_zero_at(v: JsonView, key: Seq<char>) -> Option<u64> {
    match v.field(key) {
        Some(n) => n.as_uint(),
        None => Some(0),
    }
}

/// A value that must be an integer of 32 bits.
pub open spec fn small_uint(v: JsonView) -> Option<u32> {
    match v.as_uint() {
        Some(n) => if n <= u32::MAX {
            Some(n as u32)
        } else {
            None
        },
        None => None,
    }
}

/// A member that must be an integer of 32 bits.
pub open spec fn u32_at(v: JsonView, key: Seq<char>) -> Option<u32> {
    match v.field(key) {
        Some(n) => small_uint(n),
        None => None,
    }
}

/// A member that counts as zero if it is missing, and is an integer of 32 bits
/// otherwise.
pub open spec fn u32_or_zero_at(v: JsonView, key: Seq<char>) -> Option<u32> {
    match v.field(key) {
        Some(n) => small_uint(n),
        None => Some(0),
    }
}

/// A member that may be missing or `null`, and is an integer of 32 bits
/// otherwise.
pub open spec fn opt_u32_at(v: JsonView, key: Seq<char>) -> Option<Option<u32>> {
    match v.field(key) {
        None => Some(None),
        Some(JsonView::Null) => Some(None),
        Some(n) => match small_uint(n) {
            Some(k) => Some(Some(k)),
            None => None,
        },
    }
}

/// A member that may be missing or `null`, and is an integer of 64 bits
/// otherwise.
pub open spec fn opt_u64_at(v: JsonView, key: Seq<char>) -> Option<Option<u64>> {
    match v.field(key) {
        None => Some(None),
        Some(JsonView::Null) => Some(None),
        Some(n) => match n.as_uint() {
            Some(k) => Some(Some(k)),
            None => None,
        },
    }
}

/// A member that counts as false if it is missing, and is a truth value
/// otherwise.
pub open spec fn flag_at(v: JsonView, key: Seq<char>) -> Option<bool> {
    match v.field(key) {
        None => Some(false),
        Some(b) => b.as_truth(),
    }
}

/// Reads a member that must be a string.
pub fn read_text(v: &Json, key: &str) -> (r: Option<String>)
    ensures
        opt_text(r) == text_at(v@, key@),
{
    match v.get(key) {
        Some(Json::Str(s)) => Some(s.clone()),
        _ => None,
    }
}

/// Reads a member that may be missing or `null`, and is a string otherwise.
pub fn read_opt_text(v: &Json, key: &str) -> (r: Option<Option<String>>)
    ensures
        match r {
            Some(t) => opt_text_at(v@, key@) == Some(opt_text(t)),
            None => opt_text_at(v@, key@) is None,
        },
{
    match v.get(key) {
        None => Some(None),
        Some(Json::Null) => Some(None),
        Some(Json::Str(s)) => Some(Some(s.clone())),
        Some(_) => None,
    }
}

/// Reads a member that counts as empty if it is missing.
pub fn read_text_or_empty(v: &Json, key: &str) -> (r: Option<String>)
    ensures
        opt_text(r) == text_or_empty_at(v@, key@),
{
    match v.get(key) {
        None => {
            let none = String::new();
            assert(none@ =~= Seq::<char>::empty());
            Some(none)
        },
        Some(Json::Str(s)) => Some(s.clone()),
        Some(_) => None,
    }
}

/// Reads a member that must be an integer of 64 bits.
pub fn read_u64(v: &Json, key: &str) -> (r: Option<u64>)
    ensures
        r == u64_at(v@, key@),
{
    match v.get(key) {
        Some(n) => n.as_u64(),
        None => None,
    }
}

/// Reads a member that counts as zero if it is missing.
pub fn read_u64_or_zero(v: &Json, key: &str) -> (r: Option<u64>)
    ensures
        r == u64_or_zero_at(v@, key@),
{
    match v.get(key) {
        Some(n) => n.as_u64(),
        None => Some(0),
    }
}

fn read_small(v: &Json) -> (r: Option<u32>)
    ensures
        r == small_uint(v@),
{
    match v.as_u64() {
        Some(n) => if n <= u32::MAX as u64 {
            Some(n as u32)
        } else {
            None
        },
        None => None,
    }
}

/// Reads a member that must be an integer of 32 bits.
pub fn read_u32(v: &Json, key: &str) -> (r: Option<u32>)
    ensures
        r == u32_at(v@, key@),
{
    match v.get(key) {
        Some(n) => read_small(n),
        None => None,
    }
}

/// Reads a member that counts as zero if it is missing.
pub fn read_u32_or_zero(v: &Json, key: &str) -> (r: Option<u32>)
    ensures
        r == u32_or_zero_at(v@, key@),
{
    match v.get(key) {
        Some(n) => read_small(n),
        None => Some(0),
    }
}

/// Reads a member that may be missing or `null`.
pub fn read_opt_u32(v: &Json, key: &str) -> (r: Option<Option<u32>>)
    ensures
        r == opt_u32_at(v@, key@),
{
    match v.get(key) {
        None => Some(None),
        Some(Json::Null) => Some(None),
        Some(n) => match read_small(n) {
            Some(k) => Some(Some(k)),
            None => None,
        },
    }
}

/// Reads a member that may be missing or `null`.
pub fn read_opt_u64(v: &Json, key: &str) -> (r: Option<Option<u64>>)
    ensures
        r == opt_u64_at(v@, key@),
{
    match v.get(key) {
        None => Some(None),
        Some(Json::Null) => Some(None),
        Some(n) => match n.as_u64() {
            Some(k) => Some(Some(k)),
            None => None,
        },
    }
}

/// Reads a member that counts as false if it is missing.
pub fn read_flag(v: &Json, key: &str) -> (r: Option<bool>)
    ensures
        r == flag_at(v@, key@),
{
    match v.get(key) {
        None => Some(false),
        Some(b) => b.as_bool(),
    }
}

/// Whether a value is an object.
pub fn is_object(v: &Json) -> (r: bool)
    ensures
        r == (v@ is Object),
{
    match v {
        Json::Object(_) => true,
        _ => false,
    }
}

/// A record that is written as an array says the same as one that is written as an
/// object: the i-th item stands under the i-th name. An object stays as it is.
pub proof fn records_may_be_arrays(
    items: Seq<JsonView>,
    names: Seq<Seq<char>>,
    required: nat,
    i: int,
)
    requires
        required <= items.len() <= names.len(),
        forall|a: int, b: int|
            0 <= a < b < names.len() ==> (#[trigger] names[a]) != (#[trigger] names[b]),
        0 <= i < names.len(),
    ensures
        placed(JsonView::Array(items), names, required) is Object,
        i < items.len() ==> placed(JsonView::Array(items), names, required).field(names[i]) == Some(
            items[i],
        ),
        i >= items.len() ==> placed(JsonView::Array(items), names, required).field(
            names[i],
        ) is None,
        forall|m: Map<Seq<char>, JsonView>| #[trigger]
            placed(JsonView::Object(m), names, required) == JsonView::Object(m),
{
    let pairs = Seq::new(items.len(), |k: int| (names[k], items[k]));
    if i < items.len() {
        assert(names_distinct(pairs));
        lemma_pair_in_map(pairs, i);
    } else if pairs_map(pairs).contains_key(names[i]) {
        let k = lemma_key_listed(pairs, names[i]);
        assert(names[k] != names[i]);
    }
}

} // verus!
