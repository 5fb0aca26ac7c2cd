//! Memory that keeps messages within a token budget.

use crate::error::{DaimonError, ErrorView, Outcome, Result};
use crate::json::{lemma_pairs_finite, names_distinct, pairs_map};
use crate::json::{number_value, Json, JsonMap, JsonView, NumberView};
use crate::memory::traits::Memory;
use crate::memory::{eviction_group_len, queue_to_vec};
use crate::memory::{group_len, lemma_group_keeps_orphan_free, lemma_group_len, orphan_free};
use crate::model::types::{message_views, Message, MessageView};
use crate::text::{decimal, owned, signed_decimal};
use crate::tool::ToolCallView;
use std::collections::VecDeque;
use vstd::prelude::*;

verus! {

// ---------------------------------------------------------------------
// Estimating
// ---------------------------------------------------------------------

/// The length of a text in bytes.
pub open spec fn byte_len(s: Seq<char>) -> nat {
    (vstd::utf8::encode_utf8(s).len() as usize) as nat
}

/// A sum that stops at the largest machine word.
pub open spec fn capped(n: nat) -> usize {
    if n <= usize::MAX {
        n as usize
    } else {
        usize::MAX
    }
}

/// The number of characters that `ryu` prints for a finite double, given by its
/// bits.
pub uninterp spec fn ryu_length(bits: u64) -> usize;

/// `itoa::Buffer::format` writes an integer in decimal; this is the length of
/// what it writes.
#[verifier::external_body]
fn itoa_length(n: i128) -> (r: usize)
    ensures
        r == signed_decimal(n as int).len(),
{
    itoa::Buffer::new().format(n).len()
}

/// `ryu::Buffer::format` on the double that a `serde_json::Number` holds; this
/// is the length of what it writes.
#[verifier::external_body]
fn double_length(n: &serde_json::Number) -> (r: usize)
    ensures
        number_value(*n) matches NumberView::Float(bits) ==> r == ryu_length(bits),
{
    ryu::Buffer::new().format(n.as_f64().unwrap_or_default()).len()
}

/// The length of a number's text.
pub open spec fn number_len(n: NumberView) -> nat {
    match n {
        NumberView::PosInt(v) => signed_decimal(v as int).len(),
        NumberView::NegInt(v) => signed_decimal(v as int).len(),
        NumberView::Float(bits) => ryu_length(bits) as nat,
    }
}

/// The estimated length of a value's JSON text: strings count without escapes,
/// and every item and member with a comma behind it.
pub open spec fn json_len(v: JsonView) -> nat
    decreases v, 0nat,
{
    match v {
        JsonView::Null => 4,
        JsonView::Bool(b) => if b {
            4
        } else {
            5
        },
        JsonView::Number(n) => number_len(n),
        JsonView::Str(s) => byte_len(s) + 2,
        JsonView::Array(items) => 2 + items_len(items),
        JsonView::Object(m) => 2 + members_len(m, m.dom()),
    }
}

/// The estimated length of array items, each with a comma behind it.
pub open spec fn items_len(s: Seq<JsonView>) -> nat
    decreases s, s.len(),
{
    if s.len() == 0 {
        0
    } else {
        items_len(s.subrange(0, s.len() - 1)) + json_len(s[s.len() - 1]) + 1
    }
}

/// The estimated length of the members of `m` whose names are in `names`: the
/// quoted name, a colon, the value and a comma.
pub open spec fn members_len(m: Map<Seq<char>, JsonView>, names: Set<Seq<char>>) -> nat
    decreases m, names.len(),
{
    if m.dom().finite() && names.finite() && names.len() > 0 && names.subset_of(m.dom()) {
        let name = names.choose();
        byte_len(name) + 3 + json_len(m[name]) + 1 + members_len(m, names.remove(name))
    } else {
        0
    }
}

proof fn lemma_members_step(
    m: Map<Seq<char>, JsonView>,
    names: Set<Seq<char>>,
    name: Seq<char>,
)
    requires
        m.dom().finite(),
        names.finite(),
        names.subset_of(m.dom()),
        names.contains(name),
    ensures
        members_len(m, names) == byte_len(name) + 3 + json_len(m[name]) + 1 + members_len(
            m,
            names.remove(name),
        ),
    decreases names.len(),
{
    let first = names.choose();
    if first != name {
        lemma_members_step(m, names.remove(first), name);
        lemma_members_step(m, names.remove(name), first);
        assert(names.remove(first).remove(name) =~= names.remove(name).remove(first));
    }
}

proof fn lemma_members_of_larger(
    m: Map<Seq<char>, JsonView>,
    larger: Map<Seq<char>, JsonView>,
    names: Set<Seq<char>>,
)
    requires
        m.dom().finite(),
        larger.dom().finite(),
        names.finite(),
        names.subset_of(m.dom()),
        names.subset_of(larger.dom()),
        forall|k: Seq<char>| names.contains(k) ==> m[k] == larger[k],
    ensures
        members_len(m, names) == members_len(larger, names),
    decreases names.len(),
{
    if names.len() > 0 {
        let first = names.choose();
        lemma_members_of_larger(m, larger, names.remove(first));
    }
}

spec fn pairs_len(s: Seq<(Seq<char>, JsonView)>) -> nat
    decreases s.len(),
{
    if s.len() == 0 {
        0
    } else {
        pairs_len(s.drop_last()) + byte_len(s.last().0) + 3 + json_len(s.last().1) + 1
    }
}

proof fn lemma_pairs_len(s: Seq<(Seq<char>, JsonView)>)
    requires
        names_distinct(s),
    ensures
        pairs_len(s) == members_len(pairs_map(s), pairs_map(s).dom()),
    decreases s.len(),
{
    let m = pairs_map(s);
    lemma_pairs_finite(s);
    if s.len() > 0 {
        let init = s.drop_last();
        let name = s.last().0;
        assert(names_distinct(init));
        lemma_pairs_len(init);
        lemma_pairs_finite(init);
        assert(!pairs_map(init).contains_key(name)) by {
            lemma_absent_name(init, name);
        }
        lemma_members_step(m, m.dom(), name);
        assert(m.dom().remove(name) =~= pairs_map(init).dom());
        lemma_members_of_larger(pairs_map(init), m, pairs_map(init).dom());
    } else {
        assert(m.dom() =~= Set::<Seq<char>>::empty());
    }
}

proof fn lemma_absent_name(s: Seq<(Seq<char>, JsonView)>, name: Seq<char>)
    requires
        forall|i: int| 0 <= i < s.len() ==> (#[trigger] s[i]).0 != name,
    ensures
        !pairs_map(s).contains_key(name),
    decreases s.len(),
{
    if s.len() > 0 {
        lemma_absent_name(s.drop_last(), name);
        assert(s[s.len() - 1].0 != name);
    }
}

/// Estimates the length of a value's JSON text without writing it.
pub fn json_value_len(v: &Json) -> (n: usize)
    ensures
        n == capped(json_len(v@)),
    decreases v,
{
    match v {
        Json::Null => 4,
        Json::Bool(b) => if *b {
            4
        } else {
            5
        },
        Json::Number(n) => {
            if let Some(i) = n.as_i64() {
                itoa_length(i as i128)
            } else if let Some(u) = n.as_u64() {
                itoa_length(u as i128)
            } else {
                double_length(n)
            }
        },
        Json::Str(s) => s.as_str().len().saturating_add(2),
        Json::Array(items) => {
            let mut n: usize = 0;
            let mut i: usize = 0;
            let ghost views = v@->Array_0;
            while i < items.len()
                invariant
                    i <= items@.len(),
                    *v == Json::Array(*items),
                    views == v@->Array_0,
                    n == capped(items_len(views.take(i as int))),
                decreases items@.len() - i,
            {
                assert(decreases_to!(v => v->Array_0));
                assert(decreases_to!(items@ => items@[i as int]));
                n = n.saturating_add(json_value_len(&items[i])).saturating_add(1);
                i += 1;
                assert(views.take(i as int).subrange(0, i - 1) =~= views.take(i - 1));
            }
            assert(views.take(items@.len() as int) =~= views);
            n.saturating_add(2)
        },
        Json::Object(m) => {
            assert(decreases_to!(v => v->Object_0));
            object_len(m)
        },
    }
}

fn object_len(m: &JsonMap) -> (n: usize)
    ensures
        n == capped(2 + members_len(m@, m@.dom())),
    decreases m,
{
    let count: usize = m.len();
    let ghost pairs = m.pairs();
    let mut n: usize = 0;
    let mut i: usize = 0;
    while i < count
        invariant
            i <= count == pairs.len(),
            pairs == m.pairs(),
            n == capped(pairs_len(pairs.take(i as int))),
        decreases count - i,
    {
        let value = json_value_len(m.value(i));
        n = n.saturating_add(m.name(i).as_str().len()).saturating_add(3).saturating_add(
            value,
        ).saturating_add(1);
        i += 1;
        assert(pairs.take(i as int).drop_last() =~= pairs.take(i - 1));
    }
    proof {
        assert(pairs.take(pairs.len() as int) =~= pairs);
        lemma_pairs_len(pairs);
    }
    n.saturating_add(2)
}

/// The bytes of the names and arguments of tool calls.
pub open spec fn calls_len(s: Seq<ToolCallView>) -> nat
    decreases s.len(),
{
    if s.len() == 0 {
        0
    } else {
        calls_len(s.drop_last()) + byte_len(s.last().name) + json_len(s.last().arguments)
    }
}

/// The bytes that count for a message: its text, its tool calls, the call that
/// it answers, and six for the frame.
pub open spec fn message_len(m: MessageView) -> nat {
    (match m.content {
        Some(t) => byte_len(t),
        None => 0,
    }) + calls_len(m.tool_calls) + (match m.tool_call_id {
        Some(t) => byte_len(t),
        None => 0,
    }) + 6
}

/// The estimated number of tokens of a message: one for every four bytes begun.
pub open spec fn estimate(m: MessageView) -> usize {
    let n = capped(message_len(m));
    if n % 4 == 0 {
        n / 4
    } else {
        (n / 4 + 1) as usize
    }
}

/// Estimates the tokens of a message at four bytes per token.
pub fn default_estimate_tokens(msg: &Message) -> (n: usize)
    ensures
        n == estimate(msg@),
{
    let mut n: usize = 0;
    if let Some(content) = &msg.content {
        n = content.as_str().len();
    }
    let ghost text = n as nat;
    let ghost calls = msg@.tool_calls;
    let mut i: usize = 0;
    while i < msg.tool_calls.len()
        invariant
            i <= msg.tool_calls@.len(),
            calls == msg@.tool_calls,
            n == capped(text + calls_len(calls.take(i as int))),
        decreases msg.tool_calls@.len() - i,
    {
        let call = &msg.tool_calls[i];
        n = n.saturating_add(call.name.as_str().len()).saturating_add(
            json_value_len(&call.arguments),
        );
        i += 1;
        assert(calls.take(i as int).drop_last() =~= calls.take(i - 1));
    }
    assert(calls.take(calls.len() as int) =~= calls);
    if let Some(id) = &msg.tool_call_id {
        n = n.saturating_add(id.as_str().len());
    }
    n = n.saturating_add(6);
    if n % 4 == 0 {
        n / 4
    } else {
        n / 4 + 1
    }
}

// ---------------------------------------------------------------------
// The window
// ---------------------------------------------------------------------

/// The sum of token counts.
pub open spec fn total(counts: Seq<usize>) -> nat
    decreases counts.len(),
{
    if counts.len() == 0 {
        0
    } else {
        total(counts.drop_last()) + counts.last() as nat
    }
}

/// Messages with the tokens that were counted for each.
pub struct Counted {
    pub messages: Seq<MessageView>,
    pub counts: Seq<usize>,
}

impl Counted {
    /// All but the first `n` messages.
    pub open spec fn skip(self, n: int) -> Counted {
        Counted { messages: self.messages.skip(n), counts: self.counts.skip(n) }
    }

    /// One message more.
    pub open spec fn push(self, message: MessageView, tokens: usize) -> Counted {
        Counted { messages: self.messages.push(message), counts: self.counts.push(tokens) }
    }
}

/// What is left once whole groups have left from the front until the tokens are
/// within `max` or only one group is left.
pub open spec fn trimmed(s: Counted, max: nat) -> Counted
    decreases s.messages.len(),
{
    if total(s.counts) > max && 0 < group_len(s.messages) < s.messages.len() {
        trimmed(s.skip(group_len(s.messages) as int), max)
    } else {
        s
    }
}

proof fn lemma_total_skip(counts: Seq<usize>)
    requires
        counts.len() > 0,
    ensures
        total(counts) == counts[0] as nat + total(counts.skip(1)),
    decreases counts.len(),
{
    if counts.len() > 1 {
        lemma_total_skip(counts.drop_last());
        assert(counts.drop_last().skip(1) =~= counts.skip(1).drop_last());
    } else {
        assert(counts.skip(1) =~= Seq::<usize>::empty());
        assert(counts.drop_last() =~= Seq::<usize>::empty());
    }
}

/// Counts the tokens of a message.
pub trait TokenCounter {
    /// The estimated number of tokens of a message.
    fn count(&self, message: &Message) -> (n: usize);
}

/// Counts one token for every four bytes.
pub struct DefaultEstimator;

impl TokenCounter for DefaultEstimator {
    fn count(&self, message: &Message) -> (n: usize)
        ensures
            n == estimate(message@),
    {
        default_estimate_tokens(message)
    }
}

/// In-memory conversation storage that keeps messages within a token budget.
///
/// An assistant message with tool calls leaves together with the tool results
/// behind it. The newest message, or a group that fills the whole window, stays
/// even over budget.
pub struct TokenWindowMemory<C> {
    messages: VecDeque<Message>,
    token_counts: VecDeque<usize>,
    total_tokens: usize,
    max_tokens: usize,
    token_counter: C,
}

impl TokenWindowMemory<DefaultEstimator> {
    /// An empty window with a token budget, which estimates tokens by bytes.
    pub fn new(max_tokens: usize) -> (r: Self)
        ensures
            r.wf(),
            r@ == (Counted { messages: Seq::empty(), counts: Seq::empty() }),
            r.budget() == max_tokens,
    {
        let r = TokenWindowMemory {
            messages: VecDeque::new(),
            token_counts: VecDeque::new(),
            total_tokens: 0,
            max_tokens,
            token_counter: DefaultEstimator,
        };
        assert(r@.messages =~= Seq::<MessageView>::empty());
        r
    }
}

impl<C> View for TokenWindowMemory<C> {
    type V = Counted;

    closed spec fn view(&self) -> Counted {
        Counted { messages: message_views(self.messages@), counts: self.token_counts@ }
    }
}

impl<C> TokenWindowMemory<C> {
    /// The token budget.
    pub closed spec fn budget(&self) -> nat {
        self.max_tokens as nat
    }

    /// The counter in use.
    pub closed spec fn counter(&self) -> C {
        self.token_counter
    }

    /// Every message has a count, and the running total is their sum.
    pub closed spec fn counts_agree(&self) -> bool {
        &&& self.messages@.len() == self.token_counts@.len()
        &&& self.total_tokens == total(self.token_counts@)
    }

    /// The same window with another way to count.
    pub fn with_token_counter<D>(self, counter: D) -> (r: TokenWindowMemory<D>)
        ensures
            r@ == self@,
            r.budget() == self.budget(),
            r.counter() == counter,
            r.counts_agree() == self.counts_agree(),
    {
        TokenWindowMemory {
            messages: self.messages,
            token_counts: self.token_counts,
            total_tokens: self.total_tokens,
            max_tokens: self.max_tokens,
            token_counter: counter,
        }
    }

    /// The total of the estimated tokens.
    pub fn current_tokens(&self) -> (n: usize)
        requires
            self.counts_agree(),
        ensures
            n == total(self@.counts),
    {
        self.total_tokens
    }

    /// Appends a message that counts a number of tokens, then lets the oldest
    /// groups go.
    pub fn add_counted(&mut self, message: &Message, tokens: usize)
        requires
            old(self).counts_agree(),
            total(old(self)@.counts) + tokens <= usize::MAX,
        ensures
            final(self).counts_agree(),
            final(self)@ == trimmed(old(self)@.push(message@, tokens), old(self).budget()),
            final(self).budget() == old(self).budget(),
            final(self).counter() == old(self).counter(),
    {
        let ghost start = self@.push(message@, tokens);
        self.messages.push_back(message.clone());
        self.token_counts.push_back(tokens);
        self.total_tokens = self.total_tokens + tokens;
        proof {
            assert(self@.messages =~= start.messages);
            assert(start.counts.drop_last() =~= old(self)@.counts);
        }
        loop
            invariant
                self.counts_agree(),
                self.budget() == old(self).budget(),
                self.counter() == old(self).counter(),
                trimmed(self@, self.budget()) == trimmed(start, self.budget()),
            ensures
                self.counts_agree(),
                self.budget() == old(self).budget(),
                self.counter() == old(self).counter(),
                self@ == trimmed(start, self.budget()),
            decreases self.messages@.len(),
        {
            if self.total_tokens <= self.max_tokens {
                break;
            }
            let group: usize = eviction_group_len(&self.messages);
            proof {
                lemma_group_len(self@.messages);
            }
            if group == 0 || group >= self.messages.len() {
                break;
            }
            let ghost before = self@;
            proof {
                assert(before.messages.skip(0) =~= before.messages);
                assert(before.counts.skip(0) =~= before.counts);
            }
            let mut i: usize = 0;
            while i < group
                invariant
                    i <= group < before.messages.len(),
                    before.messages.len() == before.counts.len(),
                    self.counts_agree(),
                    self@ == before.skip(i as int),
                    self.budget() == old(self).budget(),
                    self.counter() == old(self).counter(),
                decreases group - i,
            {
                let ghost queue = self.messages@;
                let ghost counts = self.token_counts@;
                let ghost whole = self@;
                assert(whole.messages.len() == before.messages.len() - i);
                proof {
                    lemma_total_skip(counts);
                }
                let _ = self.messages.pop_front();
                if let Some(removed) = self.token_counts.pop_front() {
                    self.total_tokens = self.total_tokens - removed;
                }
                proof {
                    assert(self.messages@ =~= queue.skip(1));
                    assert(self.token_counts@ =~= counts.skip(1));
                    assert(self@.messages =~= whole.messages.skip(1));
                    assert(before.messages.skip(i as int).skip(1) =~= before.messages.skip(i + 1));
                    assert(before.counts.skip(i as int).skip(1) =~= before.counts.skip(i + 1));
                }
                i += 1;
            }
        }
    }
}

impl<C: TokenCounter> Memory for TokenWindowMemory<C> {
    open spec fn history(&self) -> Seq<MessageView> {
        self@.messages
    }

    open spec fn wf(&self) -> bool {
        self.counts_agree()
    }

    open spec fn reads(&self, r: Outcome<()>) -> bool {
        r is Ok
    }

    open spec fn clears(&self, after: Self, r: Outcome<()>) -> bool {
        &&& r is Ok
        &&& after@ == (Counted { messages: Seq::empty(), counts: Seq::empty() })
        &&& after.budget() == self.budget()
        &&& after.counter() == self.counter()
    }

    open spec fn adds(&self, message: Message, after: Self, r: Outcome<()>) -> bool {
        &&& after.budget() == self.budget()
        &&& after.counter() == self.counter()
        &&& exists|tokens: usize|
            {
                &&& #[trigger] call_ensures(C::count, (&self.counter(), &message), tokens)
                &&& if total(self@.counts) + tokens <= usize::MAX {
                    &&& r is Ok
                    &&& after@ == trimmed(self@.push(message@, tokens), self.budget())
                } else {
                    &&& r == Err::<(), ErrorView>(ErrorView::Other("token total overflow"@))
                    &&& after@ == self@
                }
            }
    }

    /// Counts the tokens of a message and appends it. A total that no machine
    /// word can hold is refused.
    fn add_message(&mut self, message: &Message) -> (r: Result<()>) {
        let tokens: usize = self.token_counter.count(message);
        assert(call_ensures(C::count, (&old(self).counter(), message), tokens));
        if self.total_tokens > usize::MAX - tokens {
            return Err(DaimonError::Other(owned("token total overflow")));
        }
        self.add_counted(message, tokens);
        Ok(())
    }

    fn get_messages(&self) -> (r: Result<Vec<Message>>) {
        Ok(queue_to_vec(&self.messages))
    }

    fn clear(&mut self) -> (r: Result<()>) {
        self.messages.clear();
        self.token_counts.clear();
        self.total_tokens = 0;
        assert(self@.messages =~= Seq::<MessageView>::empty());
        Ok(())
    }
}

/// The window holds a tail of what was there, with its counts, and the newest
/// message is always kept.
pub proof fn trimming_keeps_the_newest(s: Counted, max: nat)
    requires
        s.messages.len() > 0,
        s.messages.len() == s.counts.len(),
    ensures
        trimmed(s, max).messages.len() > 0,
        trimmed(s, max).messages.last() == s.messages.last(),
        trimmed(s, max).messages.len() <= s.messages.len(),
        trimmed(s, max) == s.skip(s.messages.len() - trimmed(s, max).messages.len()),
    decreases s.messages.len(),
{
    if total(s.counts) > max && 0 < group_len(s.messages) < s.messages.len() {
        let g = group_len(s.messages) as int;
        trimming_keeps_the_newest(s.skip(g), max);
        let t = trimmed(s, max);
        let n = s.messages.len() - t.messages.len();
        assert(s.messages.skip(g).skip(n - g) =~= s.messages.skip(n));
        assert(s.counts.skip(g).skip(n - g) =~= s.counts.skip(n));
    } else {
        assert(s.messages.skip(0) =~= s.messages);
        assert(s.counts.skip(0) =~= s.counts);
    }
}

/// The window exceeds its budget only while a single group fills it.
pub proof fn trimming_meets_the_budget(s: Counted, max: nat)
    requires
        s.messages.len() == s.counts.len(),
    ensures
        total(trimmed(s, max).counts) <= max || group_len(trimmed(s, max).messages) == trimmed(
            s,
            max,
        ).messages.len(),
    decreases s.messages.len(),
{
    lemma_group_len(s.messages);
    if total(s.counts) > max && 0 < group_len(s.messages) < s.messages.len() {
        trimming_meets_the_budget(s.skip(group_len(s.messages) as int), max);
    }
}

/// A history without orphaned tool results stays without them.
pub proof fn trimming_leaves_no_orphans(s: Counted, max: nat)
    requires
        orphan_free(s.messages),
    ensures
        orphan_free(trimmed(s, max).messages),
    decreases s.messages.len(),
{
    if total(s.counts) > max && 0 < group_len(s.messages) < s.messages.len() {
        lemma_group_keeps_orphan_free(s.messages);
        trimming_leaves_no_orphans(s.skip(group_len(s.messages) as int), max);
    }
}

/// What is left once the first `k` groups have left.
pub open spec fn without_groups(s: Counted, k: nat) -> Counted
    decreases k,
{
    if k == 0 {
        s
    } else {
        without_groups(s.skip(group_len(s.messages) as int), (k - 1) as nat)
    }
}

/// Whether the tokens are within a budget or no more than one group is left.
pub open spec fn settled(s: Counted, max: nat) -> bool {
    total(s.counts) <= max || group_len(s.messages) >= s.messages.len()
}

/// The fewest groups leave: so many that what is left is within the budget or a
/// single group, and with one group fewer it would be neither.
pub proof fn the_fewest_groups_leave(s: Counted, max: nat) -> (k: nat)
    requires
        s.messages.len() == s.counts.len(),
    ensures
        trimmed(s, max) == without_groups(s, k),
        settled(trimmed(s, max), max),
        forall|j: nat| j < k ==> !settled(#[trigger] without_groups(s, j), max),
    decreases s.messages.len(),
{
    lemma_group_len(s.messages);
    if total(s.counts) > max && 0 < group_len(s.messages) < s.messages.len() {
        let rest = s.skip(group_len(s.messages) as int);
        let k = the_fewest_groups_leave(rest, max);
        assert forall|j: nat| j < k + 1 implies !settled(#[trigger] without_groups(s, j), max) by {
            if j > 0 {
                assert(without_groups(s, j) == without_groups(rest, (j - 1) as nat));
            }
        }
        k + 1
    } else {
        0
    }
}

/// Whether a counter is pure: it counts every message by one function.
pub open spec fn counts_by<C: TokenCounter>(
    counter: C,
    tokens: spec_fn(MessageView) -> usize,
) -> bool {
    forall|m: Message, n: usize| #[trigger]
        call_ensures(C::count, (&counter, &m), n) ==> n == tokens(m@)
}

/// The estimate by bytes is a pure counter.
pub proof fn the_default_estimator_is_pure()
    ensures
        counts_by(DefaultEstimator, |m: MessageView| estimate(m)),
{
}

/// Whether every message stands beside what a function counts for it.
pub open spec fn counted_by(s: Counted, tokens: spec_fn(MessageView) -> usize) -> bool {
    s.counts =~= s.messages.map_values(tokens)
}

proof fn lemma_trimmed_counted(s: Counted, max: nat, tokens: spec_fn(MessageView) -> usize)
    requires
        counted_by(s, tokens),
    ensures
        counted_by(trimmed(s, max), tokens),
    decreases s.messages.len(),
{
    if total(s.counts) > max && 0 < group_len(s.messages) < s.messages.len() {
        lemma_trimmed_counted(s.skip(group_len(s.messages) as int), max, tokens);
    }
}

/// With a pure counter, and as long as a machine word holds the total, adding a
/// message succeeds, lets the fewest groups of the grown history go, and keeps the
/// total at the sum of what the counter says of each message that is left.
pub proof fn adding_lets_the_fewest_groups_go<C: TokenCounter>(
    before: TokenWindowMemory<C>,
    message: Message,
    after: TokenWindowMemory<C>,
    r: Outcome<()>,
    tokens: spec_fn(MessageView) -> usize,
) -> (k: nat)
    requires
        counts_by(before.counter(), tokens),
        counted_by(before@, tokens),
        total(before@.messages.push(message@).map_values(tokens)) <= usize::MAX,
        before.adds(message, after, r),
    ensures
        r is Ok,
        ({
            let grown = before@.push(message@, tokens(message@));
            &&& after@ == without_groups(grown, k)
            &&& settled(after@, before.budget())
            &&& forall|j: nat|
                j < k ==> !settled(#[trigger] without_groups(grown, j), before.budget())
        }),
        counted_by(after@, tokens),
        total(after@.counts) == total(after@.messages.map_values(tokens)),
        after.budget() == before.budget(),
        after.counter() == before.counter(),
{
    let grown = before@.push(message@, tokens(message@));
    let all = before@.messages.push(message@).map_values(tokens);
    assert(all =~= grown.counts);
    assert(grown.counts.drop_last() =~= before@.counts);
    lemma_trimmed_counted(grown, before.budget(), tokens);
    the_fewest_groups_leave(grown, before.budget())
}

/// Lengths add up: every tool call and every item of an array counts once, with a
/// comma behind each item.
pub proof fn lengths_add_up(
    a: Seq<ToolCallView>,
    b: Seq<ToolCallView>,
    x: Seq<JsonView>,
    y: Seq<JsonView>,
)
    ensures
        calls_len(a + b) == calls_len(a) + calls_len(b),
        forall|c: ToolCallView| #[trigger]
            calls_len(seq![c]) == byte_len(c.name) + json_len(c.arguments),
        json_len(JsonView::Array(x + y)) + 2 == json_len(JsonView::Array(x)) + json_len(
            JsonView::Array(y),
        ),
        forall|v: JsonView| #[trigger]
            json_len(JsonView::Array(seq![v])) == json_len(v) + 3,
{
    lemma_calls_add_up(a, b);
    lemma_items_add_up(x, y);
    assert forall|c: ToolCallView| #[trigger]
        calls_len(seq![c]) == byte_len(c.name) + json_len(c.arguments) by {
        assert(seq![c].drop_last() =~= Seq::<ToolCallView>::empty());
        reveal_with_fuel(calls_len, 2);
    }
    assert forall|v: JsonView| #[trigger]
        json_len(JsonView::Array(seq![v])) == json_len(v) + 3 by {
        let s = seq![v];
        assert(s.subrange(0, 0) =~= Seq::<JsonView>::empty());
        assert(items_len(s.subrange(0, 0)) == 0);
        assert(items_len(s) == items_len(s.subrange(0, s.len() - 1)) + json_len(s[s.len() - 1])
            + 1);
    }
}

proof fn lemma_calls_add_up(a: Seq<ToolCallView>, b: Seq<ToolCallView>)
    ensures
        calls_len(a + b) == calls_len(a) + calls_len(b),
    decreases b.len(),
{
    if b.len() == 0 {
        assert(a + b =~= a);
    } else {
        lemma_calls_add_up(a, b.drop_last());
        assert((a + b).drop_last() =~= a + b.drop_last());
    }
}

proof fn lemma_items_add_up(x: Seq<JsonView>, y: Seq<JsonView>)
    ensures
        items_len(x + y) == items_len(x) + items_len(y),
    decreases y.len(),
{
    if y.len() == 0 {
        assert(x + y =~= x);
    } else {
        let init = y.subrange(0, y.len() - 1);
        let all = x + y;
        lemma_items_add_up(x, init);
        assert(all.subrange(0, all.len() - 1) =~= x + init);
        assert(items_len(all) == items_len(all.subrange(0, all.len() - 1)) + json_len(
            all[all.len() - 1],
        ) + 1);
        assert(items_len(y) == items_len(init) + json_len(y[y.len() - 1]) + 1);
    }
}

/// A member more counts with its name in quotes, a colon and a comma.
pub proof fn every_member_counts(m: Map<Seq<char>, JsonView>, name: Seq<char>, value: JsonView)
    requires
        m.dom().finite(),
        !m.contains_key(name),
    ensures
        json_len(JsonView::Object(m.insert(name, value))) == json_len(JsonView::Object(m))
            + byte_len(name) + json_len(value) + 4,
{
    let larger = m.insert(name, value);
    lemma_members_step(larger, larger.dom(), name);
    assert(larger.dom().remove(name) =~= m.dom());
    lemma_members_of_larger(m, larger, m.dom());
}

/// Every part of a message counts: its text, each tool call by its name and its
/// arguments, and the call that it answers.
pub proof fn every_part_counts(m: MessageView, text: Seq<char>, call: ToolCallView, id: Seq<char>)
    ensures
        m.content is None ==> message_len(MessageView { content: Some(text), ..m }) == message_len(
            m,
        ) + byte_len(text),
        message_len(MessageView { tool_calls: m.tool_calls.push(call), ..m }) == message_len(m)
            + byte_len(call.name) + json_len(call.arguments),
        m.tool_call_id is None ==> message_len(MessageView { tool_call_id: Some(id), ..m })
            == message_len(m) + byte_len(id),
{
    assert(m.tool_calls.push(call).drop_last() =~= m.tool_calls);
}

/// An estimate is one token for every four bytes begun.
pub proof fn estimates_round_up(m: MessageView)
    requires
        message_len(m) <= usize::MAX,
    ensures
        message_len(m) <= 4 * estimate(m) < message_len(m) + 4,
{
}

/// Values that hold no others count as long as they are written: strings with their
/// quotes, numbers by their digits.
pub proof fn plain_values_count(s: Seq<char>, n: u64, b: bool)
    ensures
        json_len(JsonView::Null) == 4,
        json_len(JsonView::Bool(b)) == if b {
            4nat
        } else {
            5
        },
        json_len(JsonView::Str(s)) == byte_len(s) + 2,
        json_len(JsonView::Number(NumberView::PosInt(n))) == decimal(n as nat).len(),
{
}

} // verus!
