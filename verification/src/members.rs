//! What the members of JSON objects say.

use crate::json::{JsonView, NumberView};
use crate::model::types::Role;
use vstd::prelude::*;

verus! {

/// Whether a member is a text.
pub open spec fn says(v: JsonView, key: Seq<char>, text: Seq<char>) -> bool {
    v.field(key) == Some(JsonView::Str(text))
}

/// Whether there is nothing under a key.
pub open spec fn lacks(v: JsonView, key: Seq<char>) -> bool {
    v.field(key) is None
}

/// Whether a member is a text if there is one, and is missing otherwise.
pub open spec fn says_if_any(v: JsonView, key: Seq<char>, text: Option<Seq<char>>) -> bool {
    match text {
        Some(t) => says(v, key, t),
        None => lacks(v, key),
    }
}

/// Whether a member is a text if there is one, and is missing or `null` otherwise.
pub open spec fn may_say(v: JsonView, key: Seq<char>, text: Option<Seq<char>>) -> bool {
    match text {
        Some(t) => says(v, key, t),
        None => lacks(v, key) || v.field(key) == Some(JsonView::Null),
    }
}

/// Whether a member is a natural number.
pub open spec fn counts(v: JsonView, key: Seq<char>, n: nat) -> bool {
    v.field(key) matches Some(JsonView::Number(NumberView::PosInt(k))) && k == n
}

/// Whether a member is a truth value.
pub open spec fn affirms(v: JsonView, key: Seq<char>, b: bool) -> bool {
    v.field(key) == Some(JsonView::Bool(b))
}

/// Whether a member is an array of so many items.
pub open spec fn lists(v: JsonView, key: Seq<char>, n: nat) -> bool {
    v.field(key) matches Some(JsonView::Array(items)) && items.len() == n
}

/// An item of the array under a key.
pub open spec fn item(v: JsonView, key: Seq<char>, i: int) -> JsonView {
    v.field(key)->0->Array_0[i]
}

/// Whether all members have one of some names.
pub open spec fn only(v: JsonView, keys: Set<Seq<char>>) -> bool {
    v is Object && forall|key: Seq<char>|
        (#[trigger] v.field(key)) is Some ==> keys.contains(key)
}

/// The word for a role.
pub open spec fn role_word(role: Role) -> Seq<char> {
    match role {
        Role::System => "system"@,
        Role::User => "user"@,
        Role::Assistant => "assistant"@,
        Role::Tool => "tool"@,
    }
}

} // verus!
