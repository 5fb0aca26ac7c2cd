//! Cutting a sequence at every occurrence of an item.

use crate::text::{chars_of, string_of, texts};
use vstd::prelude::*;

verus! {

/// The lines of a sequence that are complete, without their ends, and what
/// follows the last end.
pub open spec fn split<T>(s: Seq<T>, end: T) -> (Seq<Seq<T>>, Seq<T>)
    decreases s.len(),
{
    if s.len() == 0 {
        (Seq::empty(), Seq::empty())
    } else {
        let (lines, rest) = split(s.drop_last(), end);
        if s.last() == end {
            (lines.push(rest), Seq::empty())
        } else {
            (lines, rest.push(s.last()))
        }
    }
}

proof fn lemma_rest_is_open<T>(s: Seq<T>, end: T)
    ensures
        !split(s, end).1.contains(end),
    decreases s.len(),
{
    if s.len() > 0 {
        lemma_rest_is_open(s.drop_last(), end);
        let before = split(s.drop_last(), end).1;
        let after = split(s, end).1;
        if after.contains(end) {
            let i = choose|i: int| 0 <= i < after.len() && after[i] == end;
            if i < before.len() {
                assert(before[i] == end);
            }
        }
    }
}

/// A sequence without an end has no complete line.
pub proof fn lemma_no_end<T>(s: Seq<T>, end: T)
    requires
        !s.contains(end),
    ensures
        split(s, end) == (Seq::<Seq<T>>::empty(), s),
    decreases s.len(),
{
    if s.len() > 0 {
        let init = s.drop_last();
        assert(!init.contains(end)) by {
            if init.contains(end) {
                let i = choose|i: int| 0 <= i < init.len() && init[i] == end;
                assert(s[i] == end);
            }
        }
        assert(s[s.len() - 1] != end);
        lemma_no_end(init, end);
        assert(init.push(s.last()) =~= s);
    }
}

/// Where a sequence is cut does not matter: the lines of the whole are those of
/// the first part and those of what was left of it with the second part behind.
pub proof fn cuts_do_not_matter<T>(a: Seq<T>, b: Seq<T>, end: T)
    ensures
        split(a + b, end) == (
            split(a, end).0 + split(split(a, end).1 + b, end).0,
            split(split(a, end).1 + b, end).1,
        ),
    decreases b.len(),
{
    let rest = split(a, end).1;
    if b.len() == 0 {
        lemma_rest_is_open(a, end);
        lemma_no_end(rest, end);
        assert(a + b =~= a);
        assert(rest + b =~= rest);
        assert(split(a, end).0 + Seq::<Seq<T>>::empty() =~= split(a, end).0);
    } else {
        let init = b.drop_last();
        cuts_do_not_matter(a, init, end);
        assert((a + b).drop_last() =~= a + init);
        assert((rest + b).drop_last() =~= rest + init);
        let (lines, last) = split(rest + init, end);
        if b.last() == end {
            assert((split(a, end).0 + lines).push(last) =~= split(a, end).0 + lines.push(last));
        }
    }
}

/// The first line of a sequence ends at its first end.
pub proof fn lemma_first_line<T>(s: Seq<T>, n: int, end: T)
    requires
        0 <= n < s.len(),
        s[n] == end,
        forall|i: int| 0 <= i < n ==> s[i] != end,
    ensures
        split(s, end) == (
            seq![s.take(n)] + split(s.skip(n + 1), end).0,
            split(s.skip(n + 1), end).1,
        ),
{
    let a = s.take(n + 1);
    let b = s.skip(n + 1);
    assert(a + b =~= s);
    cuts_do_not_matter(a, b, end);
    let head = s.take(n);
    assert(a.drop_last() =~= head);
    assert(!head.contains(end));
    lemma_no_end(head, end);
    assert(split(a, end).0 =~= seq![head]);
    assert(split(a, end).1 + b =~= b);
}

/// The parts of a text between the occurrences of a character.
pub open spec fn pieces(s: Seq<char>, c: char) -> Seq<Seq<char>> {
    split(s, c).0.push(split(s, c).1)
}

/// The parts of a text between the occurrences of a character.
pub fn split_on(s: &str, c: char) -> (r: Vec<String>)
    ensures
        texts(r@) == pieces(s@, c),
        r@.len() >= 1,
{
    let chars = chars_of(s);
    let n: usize = chars.len();
    let mut parts: Vec<String> = Vec::new();
    let mut start: usize = 0;
    let mut i: usize = 0;
    assert(s@.take(0) =~= Seq::<char>::empty());
    assert(texts(parts@) =~= split(s@.take(0), c).0);
    assert(s@.subrange(0, 0) =~= split(s@.take(0), c).1);
    while i < n
        invariant
            start <= i <= n == s@.len(),
            chars@ == s@,
            texts(parts@) == split(s@.take(i as int), c).0,
            s@.subrange(start as int, i as int) == split(s@.take(i as int), c).1,
        decreases n - i,
    {
        assert(s@.take(i + 1).drop_last() =~= s@.take(i as int));
        assert(s@.take(i + 1).last() == chars@[i as int]);
        if chars[i] == c {
            let ghost before = texts(parts@);
            let part = string_of(&chars, start, i);
            let ghost end = part@;
            parts.push(part);
            assert(texts(parts@) =~= before.push(end));
            start = i + 1;
            assert(s@.subrange(start as int, i + 1) =~= Seq::<char>::empty());
        } else {
            assert(s@.subrange(start as int, i + 1) =~= s@.subrange(start as int, i as int).push(
                chars@[i as int],
            ));
        }
        i += 1;
    }
    assert(s@.take(n as int) =~= s@);
    let ghost before = texts(parts@);
    let part = string_of(&chars, start, n);
    let ghost end = part@;
    parts.push(part);
    assert(texts(parts@) =~= before.push(end));
    parts
}

} // verus!
