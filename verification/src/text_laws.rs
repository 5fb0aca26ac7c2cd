//! What trimming, joining, splitting and replacing leave of a text.

use crate::split::{pieces, split};
use crate::text::{
    after_prefix, decimal, digit, digits_value, first_at, has_word, is_space, is_word_char, joined,
    lemma_first_at, numeral, replaced, signed_decimal, space_run, stands_at, tail_run, trimmed,
    trimmed_start, uint_value, without, word_at, word_run, words, zero_padded,
};
use vstd::prelude::*;

verus! {

/// Whether a text is white space and nothing else.
pub open spec fn blank(s: Seq<char>) -> bool {
    forall|i: int| 0 <= i < s.len() ==> is_space(#[trigger] s[i])
}

/// Whether a text holds no white space.
pub open spec fn solid(s: Seq<char>) -> bool {
    forall|i: int| 0 <= i < s.len() ==> !is_space(#[trigger] s[i])
}

proof fn lemma_front(s: Seq<char>)
    ensures
        space_run(s) <= s.len(),
        blank(s.take(space_run(s) as int)),
        space_run(s) < s.len() ==> !is_space(s[space_run(s) as int]),
    decreases s.len(),
{
    if s.len() > 0 && is_space(s[0]) {
        let rest = s.skip(1);
        lemma_front(rest);
        let n = space_run(rest) as int;
        assert forall|i: int| 0 <= i < n + 1 implies is_space(#[trigger] s.take(n + 1)[i]) by {
            if i > 0 {
                assert(rest.take(n)[i - 1] == s[i]);
            }
        }
    }
}

proof fn lemma_back(s: Seq<char>)
    ensures
        tail_run(s) <= s.len(),
        blank(s.skip(s.len() - tail_run(s))),
        tail_run(s) < s.len() ==> !is_space(s[s.len() - tail_run(s) - 1]),
    decreases s.len(),
{
    if s.len() > 0 && is_space(s.last()) {
        let init = s.drop_last();
        lemma_back(init);
        let n = tail_run(init) as int;
        let tail = s.skip(s.len() - n - 1);
        assert forall|i: int| 0 <= i < tail.len() implies is_space(#[trigger] tail[i]) by {
            if i < n {
                assert(init.skip(init.len() - n)[i] == tail[i]);
            }
        }
    }
}

proof fn lemma_word_front(s: Seq<char>)
    ensures
        word_run(s) <= s.len(),
        solid(s.take(word_run(s) as int)),
        word_run(s) < s.len() ==> is_space(s[word_run(s) as int]),
    decreases s.len(),
{
    if s.len() > 0 && !is_space(s[0]) {
        let rest = s.skip(1);
        lemma_word_front(rest);
        let n = word_run(rest) as int;
        assert forall|i: int| 0 <= i < n + 1 implies !is_space(#[trigger] s.take(n + 1)[i]) by {
            if i > 0 {
                assert(rest.take(n)[i - 1] == s[i]);
            }
        }
    }
}

/// Trimming takes white space at the ends and nothing else, and leaves none there.
pub proof fn trimming_takes_white_space(s: Seq<char>)
    ensures
        exists|a: Seq<char>, b: Seq<char>|
            #![trigger blank(a), blank(b)]
            blank(a) && blank(b) && s == a + trimmed(s) + b,
        trimmed(s).len() > 0 ==> !is_space(trimmed(s)[0]) && !is_space(trimmed(s).last()),
        exists|a: Seq<char>| #[trigger] blank(a) && s == a + trimmed_start(s),
        trimmed_start(s).len() > 0 ==> !is_space(trimmed_start(s)[0]),
{
    lemma_front(s);
    let n = space_run(s) as int;
    let a = s.take(n);
    let t = s.skip(n);
    lemma_back(t);
    let m = t.len() - tail_run(t);
    let b = t.skip(m);
    assert(a + trimmed(s) + b =~= s);
    assert(blank(a) && blank(b));
    assert(a + trimmed_start(s) =~= s);
    if trimmed(s).len() > 0 {
        assert(trimmed(s)[0] == s[n]);
        assert(trimmed(s).last() == t[m - 1]);
    }
}

/// A text that has no white space at its ends stays as it is.
pub proof fn trimming_keeps_trimmed(s: Seq<char>)
    requires
        s.len() > 0 ==> !is_space(s[0]) && !is_space(s.last()),
    ensures
        trimmed(s) == s,
{
    lemma_front(s);
    assert(s.skip(0) =~= s);
    lemma_back(s);
    assert(space_run(s) == 0);
    assert(tail_run(s) == 0);
    assert(s.take(s.len() as int) =~= s);
}

/// Whether words stand at some places of a text in order, with white space and
/// nothing else between, before and behind them.
pub open spec fn spread(s: Seq<char>, parts: Seq<Seq<char>>, at: Seq<int>) -> bool {
    &&& at.len() == parts.len()
    &&& forall|i: int|
        0 <= i < parts.len() ==> (#[trigger] parts[i]).len() > 0 && solid(parts[i]) && stands_at(
            s,
            parts[i],
            at[i],
        )
    &&& forall|i: int, j: int|
        0 <= i < j < parts.len() ==> (#[trigger] at[i]) + parts[i].len() < #[trigger] at[j]
    &&& forall|p: int|
        0 <= p < s.len() && !is_space(#[trigger] s[p]) ==> exists|i: int|
            0 <= i < parts.len() && #[trigger] at[i] <= p < at[i] + parts[i].len()
}

/// The words of a text are what stands between its white space: none is empty or
/// holds white space, they stand apart in the order of the text, and no other
/// character is left over.
#[verifier::rlimit(40)]
pub proof fn words_stand_between_white_space(s: Seq<char>) -> (at: Seq<int>)
    ensures
        spread(s, words(s), at),
    decreases s.len(),
{
    lemma_front(s);
    let n = space_run(s) as int;
    let t = s.skip(n);
    lemma_word_front(t);
    let m = word_run(t) as int;
    if t.len() == 0 || m == 0 {
        assert(m > 0 || t.len() == 0);
        assert forall|p: int| 0 <= p < s.len() && !is_space(#[trigger] s[p]) implies false by {
            assert(s.take(n)[p] == s[p]);
        }
        Seq::empty()
    } else {
        let rest = t.skip(m);
        let more = words_stand_between_white_space(rest);
        let at = seq![n] + Seq::new(more.len(), |i: int| n + m + more[i]);
        let parts = words(s);
        assert(parts == seq![t.take(m)] + words(rest));
        assert(s.subrange(n, n + m) =~= t.take(m));
        assert forall|i: int| 0 <= i < parts.len() implies (#[trigger] parts[i]).len() > 0 && solid(
            parts[i],
        ) && stands_at(s, parts[i], at[i]) by {
            if i > 0 {
                let w = words(rest)[i - 1];
                assert(stands_at(rest, w, more[i - 1]));
                assert(s.subrange(at[i], at[i] + w.len()) =~= rest.subrange(
                    more[i - 1],
                    more[i - 1] + w.len(),
                ));
            }
        }
        if words(rest).len() > 0 {
            let w = words(rest)[0];
            assert(stands_at(rest, w, more[0]) && solid(w) && w.len() > 0);
            assert(w[0] == rest[more[0]]);
            if more[0] == 0 {
                assert(rest[0] == t[m]);
            }
        }
        assert forall|i: int, j: int| 0 <= i < j < parts.len() implies (#[trigger] at[i])
            + parts[i].len() < #[trigger] at[j] by {
            if i > 0 {
                assert(more[i - 1] + words(rest)[i - 1].len() < more[j - 1]);
            } else if j > 1 {
                assert(more[0] + words(rest)[0].len() < more[j - 1]);
            }
        }
        assert forall|p: int| 0 <= p < s.len() && !is_space(#[trigger] s[p]) implies exists|i: int|
            0 <= i < parts.len() && #[trigger] at[i] <= p < at[i] + parts[i].len() by {
            if p < n {
                assert(s.take(n)[p] == s[p]);
            } else if p < n + m {
                assert(at[0] <= p < at[0] + parts[0].len());
            } else {
                assert(rest[p - n - m] == s[p]);
                let i = choose|i: int|
                    0 <= i < words(rest).len() && #[trigger] more[i] <= p - n - m < more[i] + words(
                        rest,
                    )[i].len();
                assert(at[i + 1] <= p < at[i + 1] + parts[i + 1].len());
            }
        }
        at
    }
}

/// Lists of texts are joined with the separator between them and nowhere else.
pub proof fn joining_adds_up(a: Seq<Seq<char>>, b: Seq<Seq<char>>, sep: Seq<char>)
    ensures
        a.len() == 0 ==> joined(a + b, sep) == joined(b, sep),
        b.len() == 0 ==> joined(a + b, sep) == joined(a, sep),
        a.len() > 0 && b.len() > 0 ==> joined(a + b, sep) == joined(a, sep) + sep + joined(b, sep),
        forall|t: Seq<char>| joined(seq![t], sep) == t,
    decreases b.len(),
{
    if a.len() == 0 {
        assert(a + b =~= b);
    }
    if b.len() == 0 {
        assert(a + b =~= a);
    }
    if a.len() > 0 && b.len() > 0 {
        let init = b.drop_last();
        assert((a + b).drop_last() =~= a + init);
        joining_adds_up(a, init, sep);
        if init.len() == 0 {
            assert(joined(b, sep) == b[0]);
        } else {
            assert(joined(a, sep) + sep + joined(init, sep) + sep + b.last() =~= joined(a, sep)
                + sep + (joined(init, sep) + sep + b.last()));
        }
    }
}

proof fn lemma_split_joined(s: Seq<char>, c: char)
    ensures
        joined(split(s, c).0.push(split(s, c).1), seq![c]) == s,
        forall|i: int| 0 <= i < split(s, c).0.len() ==> !(#[trigger] split(s, c).0[i]).contains(c),
        !split(s, c).1.contains(c),
    decreases s.len(),
{
    let (lines, rest) = split(s, c);
    if s.len() == 0 {
        assert(lines.push(rest) =~= seq![Seq::<char>::empty()]);
        assert(joined(lines.push(rest), seq![c]) =~= s);
    } else {
        let init = s.drop_last();
        lemma_split_joined(init, c);
        let (before, last) = split(init, c);
        assert(init.push(s.last()) =~= s);
        if s.last() == c {
            assert(lines.push(rest).drop_last() =~= before.push(last));
            assert(joined(lines.push(rest), seq![c]) =~= s);
        } else {
            assert(lines.push(rest).drop_last() =~= before);
            assert(before.push(last).drop_last() =~= before);
            assert(joined(lines.push(rest), seq![c]) =~= joined(
                before.push(last),
                seq![c],
            ).push(s.last()));
            assert forall|i: int| 0 <= i < rest.len() implies rest[i] != c by {
                if i < last.len() {
                    assert(last.contains(last[i]));
                }
            }
        }
    }
}

/// A text that is split at a character is its pieces with the character between
/// them, and no piece holds it.
pub proof fn pieces_make_up_the_text(s: Seq<char>, c: char)
    ensures
        joined(pieces(s, c), seq![c]) == s,
        forall|i: int| 0 <= i < pieces(s, c).len() ==> !(#[trigger] pieces(s, c)[i]).contains(c),
{
    lemma_split_joined(s, c);
}

/// A part is replaced where it first stands, and behind that the rest is treated
/// likewise. A text that does not hold the part stays.
pub proof fn parts_are_replaced(
    before: Seq<char>,
    part: Seq<char>,
    after: Seq<char>,
    by: Seq<char>,
)
    requires
        part.len() > 0,
        forall|i: int|
            0 <= i < before.len() ==> !(#[trigger] stands_at(before + part + after, part, i)),
    ensures
        replaced(before + part + after, part, by) == before + by + replaced(after, part, by),
        without(before + part + after, part) == before + without(after, part),
{
    let s = before + part + after;
    let n = before.len() as int;
    lemma_first_at(s, part, 0);
    assert(s.subrange(n, n + part.len()) =~= part);
    assert(stands_at(s, part, n));
    let i = first_at(s, part, 0);
    if i < n {
        assert(stands_at(s, part, i));
    }
    assert(i == n);
    assert(s.take(n) =~= before);
    assert(s.skip(n + part.len()) =~= after);
    reveal_strlit("");
    assert(""@ =~= Seq::<char>::empty());
    assert(before + ""@ + without(after, part) =~= before + without(after, part));
}

/// A text that does not hold a part stays as it is.
pub proof fn texts_without_the_part_stay(s: Seq<char>, part: Seq<char>, by: Seq<char>)
    requires
        forall|i: int| 0 <= i <= s.len() ==> !(#[trigger] stands_at(s, part, i)),
    ensures
        replaced(s, part, by) == s,
        without(s, part) == s,
{
    lemma_first_at(s, part, 0);
    let i = first_at(s, part, 0);
    if i <= s.len() {
        assert(stands_at(s, part, i));
    }
}

/// The value of a digit, in lower case.
pub open spec fn digit_value(c: char) -> int {
    if '0' <= c <= '9' {
        c as int - '0' as int
    } else {
        c as int - 'a' as int + 10
    }
}

/// The value of digits in a base, read from left to right.
pub open spec fn numeral_value(s: Seq<char>, base: nat) -> int
    decreases s.len(),
{
    if s.len() == 0 {
        0
    } else {
        numeral_value(s.drop_last(), base) * base + digit_value(s.last())
    }
}

/// A number is written so that its digits stand for it, without a zero too many.
pub proof fn numerals_stand_for_numbers(n: nat, base: nat)
    requires
        2 <= base <= 16,
    ensures
        numeral_value(numeral(n, base), base) == n,
        numeral(n, base).len() > 0,
        numeral(n, base).len() > 1 ==> numeral(n, base)[0] != '0',
    decreases n,
{
    if n < base {
        let s = seq![digit(n as int)];
        assert(s.drop_last() =~= Seq::<char>::empty());
        reveal_with_fuel(numeral_value, 2);
        assert(numeral(n, base) == s);
        assert(s.last() == digit(n as int));
    } else {
        assert(n / base < n) by (nonlinear_arith)
            requires
                n >= base,
                base >= 2,
        ;
        let m = (n / base) as nat;
        let d = (n % base) as int;
        numerals_stand_for_numbers(m, base);
        let s = numeral(m, base).push(digit(d));
        assert(numeral(n, base) == s);
        assert(s.drop_last() =~= numeral(m, base));
        assert(0 <= d < base) by (nonlinear_arith)
            requires
                d == n % base,
                base >= 2,
        ;
        assert(digit_value(digit(d)) == d);
        assert(n == m * base + d) by (nonlinear_arith)
            requires
                m == n / base,
                d == n % base,
                base >= 2,
        ;
        if numeral(m, base).len() == 1 {
            assert(m > 0) by (nonlinear_arith)
                requires
                    m == n / base,
                    n >= base,
                    base >= 2,
            ;
            if m < base {
                assert(numeral(m, base) == seq![digit(m as int)]);
            } else {
                numerals_stand_for_numbers((m / base) as nat, base);
                assert(numeral(m, base) == numeral((m / base) as nat, base).push(
                    digit((m % base) as int),
                ));
            }
        }
        assert(s[0] == numeral(m, base)[0]);
    }
}

/// Filling up with zeros keeps the text at the end and changes no value.
pub proof fn zeros_fill_up(s: Seq<char>, width: nat)
    ensures
        zero_padded(s, width).len() == vstd::math::max(s.len() as int, width as int),
        zero_padded(s, width).skip(zero_padded(s, width).len() - s.len()) == s,
        forall|i: int|
            0 <= i < zero_padded(s, width).len() - s.len() ==> #[trigger] zero_padded(s, width)[i]
                == '0',
{
    assert(zero_padded(s, width).skip(zero_padded(s, width).len() - s.len()) =~= s);
}

/// What follows a prefix is the rest of the text, and a text that does not begin with
/// the prefix has none.
pub proof fn prefixes_are_taken_off(prefix: Seq<char>, rest: Seq<char>, s: Seq<char>)
    ensures
        after_prefix(prefix + rest, prefix) == Some(rest),
        after_prefix(s, prefix) is None <==> !(s.len() >= prefix.len() && s.take(
            prefix.len() as int,
        ) == prefix),
        after_prefix(s, prefix) matches Some(t) ==> s == prefix + t,
{
    assert(prefix.is_prefix_of(prefix + rest));
    assert((prefix + rest).skip(prefix.len() as int) =~= rest);
    if prefix.is_prefix_of(s) {
        assert(s.take(prefix.len() as int) =~= prefix);
        assert(s =~= prefix + s.skip(prefix.len() as int));
    } else if s.len() >= prefix.len() && s.take(prefix.len() as int) == prefix {
        assert(s.subrange(0, prefix.len() as int) =~= prefix);
    }
}

/// A word stands in a text exactly where no letter or number is next to it: at the ends
/// of the text or between other characters.
pub proof fn words_stand_alone(a: Seq<char>, word: Seq<char>, b: Seq<char>)
    ensures
        (a.len() == 0 || !is_word_char(a.last())) && (b.len() == 0 || !is_word_char(b[0]))
            ==> has_word(a + word + b, word),
        has_word(a, word) ==> exists|before: Seq<char>, after: Seq<char>|
            #![trigger before + word + after]
            a == before + word + after && (before.len() == 0 || !is_word_char(before.last())) && (
            after.len() == 0 || !is_word_char(after[0])),
{
    let s = a + word + b;
    let n = a.len() as int;
    assert(s.subrange(n, n + word.len()) =~= word);
    if (a.len() == 0 || !is_word_char(a.last())) && (b.len() == 0 || !is_word_char(b[0])) {
        assert(a.len() > 0 ==> s[n - 1] == a.last());
        assert(b.len() > 0 ==> s[n + word.len()] == b[0]);
        assert(word_at(s, word, n));
    }
    if has_word(a, word) {
        let i = choose|i: int| word_at(a, word, i);
        let before = a.take(i);
        let after = a.skip(i + word.len());
        assert(before + word + after =~= a);
        assert(i > 0 ==> before.last() == a[i - 1]);
        assert(after.len() > 0 ==> after[0] == a[i + word.len()]);
    }
}

/// Whether a text is digits and nothing else.
pub open spec fn all_digits(s: Seq<char>) -> bool {
    forall|i: int| 0 <= i < s.len() ==> '0' <= #[trigger] s[i] <= '9'
}

proof fn lemma_digits(s: Seq<char>)
    ensures
        digits_value(s) matches Ok(n) ==> all_digits(s) && numeral_value(s, 10) == n,
        digits_value(s) is Err ==> !all_digits(s) || numeral_value(s, 10) > u64::MAX,
        all_digits(s) ==> numeral_value(s, 10) >= 0,
    decreases s.len(),
{
    if s.len() > 0 {
        let init = s.drop_last();
        lemma_digits(init);
        assert(forall|i: int| 0 <= i < init.len() ==> init[i] == s[i]);
        assert(s.last() == s[s.len() - 1]);
        if all_digits(init) && '0' <= s.last() <= '9' {
            assert forall|i: int| 0 <= i < s.len() implies '0' <= #[trigger] s[i] <= '9' by {
                if i < init.len() {
                    assert(init[i] == s[i]);
                }
            }
        }
        if all_digits(s) {
            assert forall|i: int| 0 <= i < init.len() implies '0' <= #[trigger] init[i] <= '9' by {
                assert(init[i] == s[i]);
            }
            assert('0' <= s[s.len() - 1] <= '9');
        }
    }
}

/// A text is read as the number that its digits stand for, with at most a plus sign
/// before them. It is refused if it is empty, holds anything else, or is too large.
pub proof fn numbers_are_read(s: Seq<char>)
    ensures
        ({
            let digits = if s.len() > 1 && s[0] == '+' {
                s.skip(1)
            } else {
                s
            };
            &&& uint_value(s) matches Ok(n) ==> numeral_value(digits, 10) == n
            &&& uint_value(s) is Ok <==> s.len() > 0 && all_digits(digits) && numeral_value(
                digits,
                10,
            ) <= u64::MAX
        }),
{
    lemma_digits(s);
    if s.len() > 1 {
        lemma_digits(s.skip(1));
    }
}

/// A negative number is written with a minus sign before its digits, and no other is.
pub proof fn signs_are_written(n: nat)
    ensures
        signed_decimal(n as int) == decimal(n),
        n > 0 ==> signed_decimal(-(n as int)) == seq!['-'] + decimal(n),
{
}

} // verus!
