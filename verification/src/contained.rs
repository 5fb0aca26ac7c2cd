//! Texts that hold other texts.

use vstd::prelude::*;

verus! {

/// Whether a text holds another one at a place.
pub open spec fn holds_at(text: Seq<char>, part: Seq<char>, at: int) -> bool {
    &&& 0 <= at <= text.len() - part.len()
    &&& text.subrange(at, at + part.len()) == part
}

/// Whether a text holds another one.
pub open spec fn holds(text: Seq<char>, part: Seq<char>) -> bool {
    exists|at: int| #[trigger] holds_at(text, part, at)
}

/// Whether a text holds some texts at some places, one behind the other.
pub open spec fn hold_at(text: Seq<char>, parts: Seq<Seq<char>>, at: Seq<int>) -> bool {
    &&& at.len() == parts.len()
    &&& forall|i: int| 0 <= i < parts.len() ==> holds_at(text, #[trigger] parts[i], at[i])
    &&& forall|i: int, j: int|
        0 <= i < j < parts.len() ==> (#[trigger] at[i]) + parts[i].len() <= #[trigger] at[j]
}

/// Whether a text holds some texts one behind the other.
pub open spec fn holds_in_order(text: Seq<char>, parts: Seq<Seq<char>>) -> bool {
    exists|at: Seq<int>| #[trigger] hold_at(text, parts, at)
}

/// A text holds what was put between two others.
pub proof fn lemma_holds_within(before: Seq<char>, part: Seq<char>, after: Seq<char>)
    ensures
        holds(before + part + after, part),
{
    let text = before + part + after;
    assert(text.subrange(before.len() as int, before.len() as int + part.len()) =~= part);
    assert(holds_at(text, part, before.len() as int));
}

/// What two texts hold in order, the two hold one behind the other.
pub proof fn lemma_one_behind_the_other(
    before: Seq<char>,
    parts: Seq<Seq<char>>,
    after: Seq<char>,
    more: Seq<Seq<char>>,
)
    requires
        holds_in_order(before, parts),
        holds_in_order(after, more),
    ensures
        holds_in_order(before + after, parts + more),
{
    let text = before + after;
    let first = choose|at: Seq<int>| #[trigger] hold_at(before, parts, at);
    let second = choose|at: Seq<int>| #[trigger] hold_at(after, more, at);
    let moved = Seq::new(second.len(), |i: int| before.len() + second[i]);
    let at = first + moved;
    let all = parts + more;
    assert forall|i: int| 0 <= i < all.len() implies holds_at(text, #[trigger] all[i], at[i]) by {
        if i < parts.len() {
            assert(holds_at(before, parts[i], first[i]));
            assert(text.subrange(at[i], at[i] + all[i].len()) =~= before.subrange(
                first[i],
                first[i] + parts[i].len(),
            ));
        } else {
            let j = i - parts.len();
            assert(holds_at(after, more[j], second[j]));
            assert(text.subrange(at[i], at[i] + all[i].len()) =~= after.subrange(
                second[j],
                second[j] + more[j].len(),
            ));
        }
    }
    assert forall|i: int, j: int| 0 <= i < j < all.len() implies (#[trigger] at[i]) + all[i].len()
        <= #[trigger] at[j] by {
        if j < parts.len() {
            assert(first[i] + parts[i].len() <= first[j]);
        } else if i < parts.len() {
            assert(holds_at(before, parts[i], first[i]));
            assert(holds_at(after, more[j - parts.len()], second[j - parts.len()]));
        } else {
            assert(second[i - parts.len()] + more[i - parts.len()].len() <= second[j
                - parts.len()]);
        }
    }
    assert(hold_at(text, all, at));
}

/// What a text holds in order, and behind it what another one holds.
pub proof fn lemma_then_one_more(
    before: Seq<char>,
    parts: Seq<Seq<char>>,
    after: Seq<char>,
    last: Seq<char>,
)
    requires
        holds_in_order(before, parts),
        holds(after, last),
    ensures
        holds_in_order(before + after, parts.push(last)),
{
    lemma_single(after, last);
    lemma_one_behind_the_other(before, parts, after, seq![last]);
    assert(parts + seq![last] =~= parts.push(last));
}

/// One text that is held is held in order.
pub proof fn lemma_single(text: Seq<char>, part: Seq<char>)
    requires
        holds(text, part),
    ensures
        holds_in_order(text, seq![part]),
{
    let at = choose|at: int| #[trigger] holds_at(text, part, at);
    assert(hold_at(text, seq![part], seq![at]));
}

/// Nothing is held in order by any text.
pub proof fn lemma_nothing_held(text: Seq<char>)
    ensures
        holds_in_order(text, Seq::empty()),
{
    assert(hold_at(text, Seq::empty(), Seq::empty()));
}

/// What is held in order is held.
pub proof fn lemma_held_of_order(text: Seq<char>, parts: Seq<Seq<char>>, i: int)
    requires
        holds_in_order(text, parts),
        0 <= i < parts.len(),
    ensures
        holds(text, parts[i]),
{
    let at = choose|at: Seq<int>| #[trigger] hold_at(text, parts, at);
    assert(holds_at(text, parts[i], at[i]));
}

/// What is held in order by a text, more text before and behind it holds too.
pub proof fn lemma_held_by_more(
    before: Seq<char>,
    text: Seq<char>,
    after: Seq<char>,
    parts: Seq<Seq<char>>,
)
    requires
        holds_in_order(text, parts),
    ensures
        holds_in_order(before + text + after, parts),
{
    lemma_nothing_held(before);
    lemma_nothing_held(after);
    lemma_one_behind_the_other(before, Seq::empty(), text, parts);
    lemma_one_behind_the_other(before + text, Seq::empty() + parts, after, Seq::empty());
    assert(Seq::<Seq<char>>::empty() + parts + Seq::<Seq<char>>::empty() =~= parts);
}

} // verus!
