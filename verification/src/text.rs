//! Text as sequences of characters: building, searching, splitting and
//! numbering.

use vstd::prelude::*;

verus! {

/// `String::push` appends one character.
pub assume_specification[ String::push ](s: &mut String, c: char)
    ensures
        final(s)@ == old(s)@.push(c),
;

/// `String::push_str` appends a whole string slice.
pub assume_specification[ String::push_str ](s: &mut String, t: &str)
    ensures
        final(s)@ == old(s)@ + t@,
;

/// The texts held by a sequence of strings.
pub open spec fn texts(s: Seq<String>) -> Seq<Seq<char>> {
    s.map_values(|t: String| t@)
}

/// The text held by an optional string.
pub open spec fn opt_text(s: Option<String>) -> Option<Seq<char>> {
    match s {
        Some(t) => Some(t@),
        None => None,
    }
}

/// The characters of `s`.
pub fn chars_of(s: &str) -> (r: Vec<char>)
    ensures
        r@ == s@,
{
    let mut r: Vec<char> = Vec::new();
    for c in it: s.chars()
        invariant
            r@ == s@.take(it.index()),
            it.seq() == s@,
    {
        proof {
            assert(s@.take(it.index() + 1) =~= s@.take(it.index()).push(c));
        }
        r.push(c);
    }
    assert(s@.take(s@.len() as int) =~= s@);
    r
}

/// The characters of `v` between two positions, as a string.
pub fn string_of(v: &Vec<char>, from: usize, to: usize) -> (r: String)
    requires
        from <= to <= v@.len(),
    ensures
        r@ == v@.subrange(from as int, to as int),
{
    let mut r = String::new();
    let mut i: usize = from;
    while i < to
        invariant
            from <= i <= to <= v@.len(),
            r@ == v@.subrange(from as int, i as int),
        decreases to - i,
    {
        r.push(v[i]);
        i += 1;
        assert(v@.subrange(from as int, i as int) =~= v@.subrange(from as int, i - 1).push(
            v@[i - 1],
        ));
    }
    r
}

/// A copy of a string slice.
pub fn owned(s: &str) -> (r: String)
    ensures
        r@ == s@,
{
    let mut r = String::new();
    r.push_str(s);
    assert(r@ =~= s@);
    r
}

/// A copy of an optional string.
pub fn owned_opt(s: &Option<String>) -> (r: Option<String>)
    ensures
        opt_text(r) == opt_text(*s),
{
    match s {
        Some(t) => Some(t.clone()),
        None => None,
    }
}

/// Two texts, one after the other.
pub fn cat2(a: &str, b: &str) -> (r: String)
    ensures
        r@ == a@ + b@,
{
    let mut r = owned(a);
    r.push_str(b);
    r
}

/// Three texts, one after the other.
pub fn cat3(a: &str, b: &str, c: &str) -> (r: String)
    ensures
        r@ == a@ + b@ + c@,
{
    let mut r = cat2(a, b);
    r.push_str(c);
    r
}

/// Four texts, one after the other.
pub fn cat4(a: &str, b: &str, c: &str, d: &str) -> (r: String)
    ensures
        r@ == a@ + b@ + c@ + d@,
{
    let mut r = cat3(a, b, c);
    r.push_str(d);
    r
}

/// Five texts, one after the other.
pub fn cat5(a: &str, b: &str, c: &str, d: &str, e: &str) -> (r: String)
    ensures
        r@ == a@ + b@ + c@ + d@ + e@,
{
    let mut r = cat4(a, b, c, d);
    r.push_str(e);
    r
}

/// Whether two string slices hold the same text.
pub fn same(a: &str, b: &str) -> (r: bool)
    ensures
        r == (a@ == b@),
{
    let x = chars_of(a);
    let y = chars_of(b);
    if x.len() != y.len() {
        return false;
    }
    let mut i: usize = 0;
    while i < x.len()
        invariant
            i <= x@.len(),
            x@.len() == y@.len(),
            x@ == a@,
            y@ == b@,
            forall|j: int| 0 <= j < i ==> x@[j] == y@[j],
        decreases x@.len() - i,
    {
        if x[i] != y[i] {
            return false;
        }
        i += 1;
    }
    assert(a@ =~= b@);
    true
}

// ---------------------------------------------------------------------
// Joining
// ---------------------------------------------------------------------

/// `parts` with `sep` between each two neighbours.
pub open spec fn joined(parts: Seq<Seq<char>>, sep: Seq<char>) -> Seq<char>
    decreases parts.len(),
{
    if parts.len() == 0 {
        Seq::empty()
    } else if parts.len() == 1 {
        parts[0]
    } else {
        joined(parts.drop_last(), sep) + sep + parts.last()
    }
}

/// A copy of some texts.
pub fn copy_texts(s: &Vec<String>) -> (r: Vec<String>)
    ensures
        texts(r@) == texts(s@),
{
    let mut r: Vec<String> = Vec::new();
    let mut i: usize = 0;
    while i < s.len()
        invariant
            i <= s@.len(),
            r@.len() == i,
            forall|j: int| 0 <= j < i ==> (#[trigger] r@[j])@ == s@[j]@,
        decreases s@.len() - i,
    {
        r.push(owned(&s[i]));
        i += 1;
    }
    assert(texts(r@) =~= texts(s@));
    r
}

/// Joins `parts` with `sep` between each two neighbours.
pub fn join(parts: &Vec<String>, sep: &str) -> (r: String)
    ensures
        r@ == joined(texts(parts@), sep@),
{
    let mut r = String::new();
    let ghost all = texts(parts@);
    let mut i: usize = 0;
    while i < parts.len()
        invariant
            i <= parts@.len(),
            all == texts(parts@),
            r@ == joined(all.take(i as int), sep@),
        decreases parts@.len() - i,
    {
        if i > 0 {
            r.push_str(sep);
        }
        r.push_str(&parts[i]);
        i += 1;
        proof {
            assert(all.take(i as int).drop_last() =~= all.take(i - 1));
            assert(all.take(i as int).last() == parts@[i - 1]@);
            if i == 1 {
                assert(r@ =~= parts@[0]@);
            }
        }
    }
    assert(all.take(parts@.len() as int) =~= all);
    r
}

// ---------------------------------------------------------------------
// Numbers
// ---------------------------------------------------------------------

/// The digit for a value below sixteen, in lower case.
pub open spec fn digit(n: int) -> char {
    if n < 10 {
        (('0' as int) + n) as char
    } else {
        (('a' as int) + n - 10) as char
    }
}

/// `n` written in the given base, without leading zeros.
pub open spec fn numeral(n: nat, base: nat) -> Seq<char>
    decreases n,
{
    if base < 2 || n < base {
        seq![digit(n as int)]
    } else {
        proof {
            assert(n / base < n) by (nonlinear_arith)
                requires
                    n >= base,
                    base >= 2,
            ;
        }
        numeral((n / base) as nat, base).push(digit((n % base) as int))
    }
}

/// `n` written in decimal.
pub open spec fn decimal(n: nat) -> Seq<char> {
    numeral(n, 10)
}

/// An integer written in decimal, with a minus sign if it is negative.
pub open spec fn signed_decimal(n: int) -> Seq<char> {
    if n < 0 {
        seq!['-'] + decimal((-n) as nat)
    } else {
        decimal(n as nat)
    }
}

proof fn lemma_numeral_len(n: nat)
    ensures
        decimal(n).len() >= 1,
        n >= 10 ==> decimal(n).len() >= 2,
    decreases n,
{
    if n >= 10 {
        lemma_numeral_len((n / 10) as nat);
    }
}

/// Different numbers are written differently.
pub proof fn lemma_decimal_injective(a: nat, b: nat)
    requires
        decimal(a) == decimal(b),
    ensures
        a == b,
    decreases a,
{
    lemma_numeral_len(a);
    lemma_numeral_len(b);
    if a < 10 && b < 10 {
        assert(decimal(a)[0] == digit(a as int));
        assert(decimal(b)[0] == digit(b as int));
    } else if a >= 10 && b >= 10 {
        let x = decimal((a / 10) as nat);
        let y = decimal((b / 10) as nat);
        assert(decimal(a).last() == digit((a % 10) as int));
        assert(decimal(b).last() == digit((b % 10) as int));
        assert(x =~= decimal(a).drop_last());
        assert(y =~= decimal(b).drop_last());
        lemma_decimal_injective((a / 10) as nat, (b / 10) as nat);
    } else if a < 10 {
        assert(decimal(a).len() == 1);
    } else {
        assert(decimal(b).len() == 1);
    }
}

fn digit_char(n: u8) -> (r: char)
    requires
        n < 16,
    ensures
        r == digit(n as int),
{
    if n < 10 {
        (48u8 + n) as char
    } else {
        (97u8 + (n - 10)) as char
    }
}

fn push_numeral(out: &mut String, n: u128, base: u128)
    requires
        2 <= base <= 16,
    ensures
        final(out)@ == old(out)@ + numeral(n as nat, base as nat),
    decreases n,
{
    if n < base {
        out.push(digit_char(n as u8));
        assert(out@ =~= old(out)@ + numeral(n as nat, base as nat));
    } else {
        proof {
            assert(n / base < n) by (nonlinear_arith)
                requires
                    n >= base,
                    base >= 2,
            ;
            assert(n % base < base) by (nonlinear_arith)
                requires
                    base >= 2,
            ;
        }
        push_numeral(out, n / base, base);
        out.push(digit_char((n % base) as u8));
        assert(out@ =~= old(out)@ + numeral(n as nat, base as nat));
    }
}

/// Writes `n` in decimal.
pub fn decimal_text(n: u64) -> (r: String)
    ensures
        r@ == decimal(n as nat),
{
    let mut r = String::new();
    push_numeral(&mut r, n as u128, 10);
    assert(r@ =~= decimal(n as nat));
    r
}

/// Writes `n` in decimal, with a minus sign if it is negative.
pub fn signed_decimal_text(n: i64) -> (r: String)
    ensures
        r@ == signed_decimal(n as int),
{
    let mut r = String::new();
    if n < 0 {
        r.push('-');
        push_numeral(&mut r, (-(n as i128)) as u128, 10);
    } else {
        push_numeral(&mut r, n as u128, 10);
    }
    assert(r@ =~= signed_decimal(n as int));
    r
}

/// `s` filled up on the left with zeros to `width` characters.
pub open spec fn zero_padded(s: Seq<char>, width: nat) -> Seq<char> {
    if s.len() >= width {
        s
    } else {
        Seq::new((width - s.len()) as nat, |i: int| '0') + s
    }
}

/// Writes `n` in lower-case hexadecimal, filled up with zeros to `width`.
pub fn hex_text(n: u128, width: usize) -> (r: String)
    ensures
        r@ == zero_padded(numeral(n as nat, 16), width as nat),
{
    let mut body = String::new();
    push_numeral(&mut body, n, 16);
    assert(body@ =~= numeral(n as nat, 16));
    let len: usize = body.as_str().unicode_len();
    let mut r = String::new();
    if len < width {
        let mut i: usize = len;
        while i < width
            invariant
                len <= i <= width,
                r@ == Seq::new((i - len) as nat, |k: int| '0'),
            decreases width - i,
        {
            r.push('0');
            i += 1;
            assert(Seq::new((i - len) as nat, |k: int| '0') =~= Seq::new(
                (i - 1 - len) as nat,
                |k: int| '0',
            ).push('0'));
        }
    }
    r.push_str(&body);
    assert(r@ =~= zero_padded(numeral(n as nat, 16), width as nat));
    r
}

// ---------------------------------------------------------------------
// Searching and splitting
// ---------------------------------------------------------------------

/// Whether Unicode counts a character beyond ASCII as white space.
pub uninterp spec fn is_wide_space(c: char) -> bool;

/// Whether a character is white space. In ASCII those are the space and the
/// controls from the tab to the carriage return.
pub open spec fn is_space(c: char) -> bool {
    if c as int >= 128 {
        is_wide_space(c)
    } else {
        c as int == 32 || 9 <= c as int <= 13
    }
}

/// `char::is_whitespace` says whether a character is Unicode white space.
pub assume_specification[ char::is_whitespace ](c: char) -> (r: bool)
    ensures
        r == (if c as int >= 128 {
            is_wide_space(c)
        } else {
            c as int == 32 || 9 <= c as int <= 13
        }),
;

/// Whether Unicode counts a character as a letter or a number.
pub uninterp spec fn is_word_char(c: char) -> bool;

/// `char::is_alphanumeric` says whether a character is a letter or a number.
pub assume_specification[ char::is_alphanumeric ](c: char) -> (r: bool)
    ensures
        r == is_word_char(c),
;

/// A text in lower case.
pub uninterp spec fn lowercase(s: Seq<char>) -> Seq<char>;

/// `str::to_lowercase` gives the text in lower case, by the Unicode property.
pub assume_specification[ str::to_lowercase ](s: &str) -> (r: String)
    ensures
        r@ == lowercase(s@),
;

/// Whether `needle` stands in `s` at position `i`.
pub open spec fn stands_at(s: Seq<char>, needle: Seq<char>, i: int) -> bool {
    0 <= i && i + needle.len() <= s.len() && s.subrange(i, i + needle.len()) == needle
}

/// Whether `needle` stands somewhere in `s`.
pub open spec fn holds_text(s: Seq<char>, needle: Seq<char>) -> bool {
    exists|i: int| stands_at(s, needle, i)
}

/// The first position from `i` on at which `needle` stands in `s`, or one past
/// the end.
pub open spec fn first_at(s: Seq<char>, needle: Seq<char>, i: int) -> int
    decreases s.len() + 1 - i,
{
    if i < 0 || i > s.len() {
        s.len() as int + 1
    } else if stands_at(s, needle, i) {
        i
    } else {
        first_at(s, needle, i + 1)
    }
}

/// The first position from `i` on is one at which the text stands, and there is
/// none before it.
pub proof fn lemma_first_at(s: Seq<char>, needle: Seq<char>, i: int)
    requires
        0 <= i,
    ensures
        i <= s.len() + 1 ==> i <= first_at(s, needle, i) <= s.len() + 1,
        i <= s.len() && first_at(s, needle, i) <= s.len() ==> stands_at(
            s,
            needle,
            first_at(s, needle, i),
        ),
        forall|j: int| i <= j < first_at(s, needle, i) && j <= s.len() ==> !stands_at(s, needle, j),
    decreases s.len() + 1 - i,
{
    if i <= s.len() && !stands_at(s, needle, i) {
        lemma_first_at(s, needle, i + 1);
    }
}

/// Whether `needle` stands in `s` at a position.
pub fn matches_at(s: &Vec<char>, needle: &Vec<char>, i: usize) -> (r: bool)
    ensures
        r == stands_at(s@, needle@, i as int),
{
    if i > s.len() || needle.len() > s.len() - i {
        return false;
    }
    let n: usize = s.len();
    let mut k: usize = 0;
    while k < needle.len()
        invariant
            k <= needle@.len(),
            n == s@.len(),
            i + needle@.len() <= n,
            forall|j: int| 0 <= j < k ==> s@[i + j] == needle@[j],
        decreases needle@.len() - k,
    {
        if s[i + k] != needle[k] {
            assert(s@.subrange(i as int, i + needle@.len())[k as int] != needle@[k as int]);
            return false;
        }
        k += 1;
    }
    assert(s@.subrange(i as int, i + needle@.len()) =~= needle@);
    true
}

/// The first position from `from` on at which `needle` stands in `s`.
pub fn find_from(s: &Vec<char>, needle: &Vec<char>, from: usize) -> (r: Option<usize>)
    requires
        from <= s@.len(),
    ensures
        match r {
            Some(i) => from <= i <= s@.len() && i == first_at(s@, needle@, from as int)
                && stands_at(s@, needle@, i as int) && i + needle@.len() <= s@.len(),
            None => first_at(s@, needle@, from as int) > s@.len() && forall|j: int|
                from <= j ==> !stands_at(s@, needle@, j),
        },
{
    let mut i: usize = from;
    loop
        invariant
            from <= i <= s@.len(),
            first_at(s@, needle@, i as int) == first_at(s@, needle@, from as int),
            forall|j: int| from <= j < i ==> !stands_at(s@, needle@, j),
        decreases s@.len() - i,
    {
        if matches_at(s, needle, i) {
            return Some(i);
        }
        if i == s.len() {
            proof {
                lemma_first_at(s@, needle@, i as int);
            }
            return None;
        }
        i += 1;
    }
}

/// Whether one text stands in another.
pub fn contains_text(s: &str, needle: &str) -> (r: bool)
    ensures
        r == holds_text(s@, needle@),
{
    let chars = chars_of(s);
    let part = chars_of(needle);
    match find_from(&chars, &part, 0) {
        Some(i) => {
            assert(stands_at(s@, needle@, i as int));
            true
        },
        None => false,
    }
}

/// The number of white-space characters at the front.
pub open spec fn space_run(s: Seq<char>) -> nat
    decreases s.len(),
{
    if s.len() > 0 && is_space(s[0]) {
        1 + space_run(s.skip(1))
    } else {
        0
    }
}

/// The number of characters before the first white space.
pub open spec fn word_run(s: Seq<char>) -> nat
    decreases s.len(),
{
    if s.len() > 0 && !is_space(s[0]) {
        1 + word_run(s.skip(1))
    } else {
        0
    }
}

/// The number of white-space characters at the end.
pub open spec fn tail_run(s: Seq<char>) -> nat
    decreases s.len(),
{
    if s.len() > 0 && is_space(s.last()) {
        1 + tail_run(s.drop_last())
    } else {
        0
    }
}

/// The text without white space at its ends.
pub open spec fn trimmed(s: Seq<char>) -> Seq<char> {
    let t = s.skip(space_run(s) as int);
    t.take(t.len() - tail_run(t))
}

proof fn lemma_space_run(s: Seq<char>, n: nat)
    requires
        n <= s.len(),
        forall|i: int| 0 <= i < n ==> is_space(s[i]),
        n < s.len() ==> !is_space(s[n as int]),
    ensures
        space_run(s) == n,
    decreases s.len(),
{
    if n > 0 {
        let t = s.skip(1);
        assert forall|i: int| 0 <= i < n - 1 implies is_space(t[i]) by {
            assert(t[i] == s[i + 1]);
        }
        lemma_space_run(t, (n - 1) as nat);
    }
}

proof fn lemma_word_run(s: Seq<char>, n: nat)
    requires
        n <= s.len(),
        forall|i: int| 0 <= i < n ==> !is_space(s[i]),
        n < s.len() ==> is_space(s[n as int]),
    ensures
        word_run(s) == n,
    decreases s.len(),
{
    if n > 0 {
        let t = s.skip(1);
        assert forall|i: int| 0 <= i < n - 1 implies !is_space(t[i]) by {
            assert(t[i] == s[i + 1]);
        }
        lemma_word_run(t, (n - 1) as nat);
    }
}

proof fn lemma_tail_run(s: Seq<char>, n: nat)
    requires
        n <= s.len(),
        forall|i: int| s.len() - n <= i < s.len() ==> is_space(s[i]),
        n < s.len() ==> !is_space(s[s.len() - n - 1]),
    ensures
        tail_run(s) == n,
    decreases s.len(),
{
    if n > 0 {
        lemma_tail_run(s.drop_last(), (n - 1) as nat);
    }
}

/// The position of the first character from `from` on that is not white space.
pub fn skip_spaces(s: &Vec<char>, from: usize) -> (r: usize)
    requires
        from <= s@.len(),
    ensures
        from <= r <= s@.len(),
        r - from == space_run(s@.skip(from as int)),
        r < s@.len() ==> !is_space(s@[r as int]),
{
    let mut i: usize = from;
    while i < s.len() && s[i].is_whitespace()
        invariant
            from <= i <= s@.len(),
            forall|j: int| from <= j < i ==> is_space(s@[j]),
        decreases s@.len() - i,
    {
        i += 1;
    }
    proof {
        let t = s@.skip(from as int);
        assert forall|k: int| 0 <= k < i - from implies is_space(t[k]) by {
            assert(t[k] == s@[from + k]);
        }
        lemma_space_run(t, (i - from) as nat);
    }
    i
}

fn skip_word(s: &Vec<char>, from: usize) -> (r: usize)
    requires
        from <= s@.len(),
    ensures
        from <= r <= s@.len(),
        r - from == word_run(s@.skip(from as int)),
{
    let mut i: usize = from;
    while i < s.len() && !s[i].is_whitespace()
        invariant
            from <= i <= s@.len(),
            forall|j: int| from <= j < i ==> !is_space(s@[j]),
        decreases s@.len() - i,
    {
        i += 1;
    }
    proof {
        let t = s@.skip(from as int);
        assert forall|k: int| 0 <= k < i - from implies !is_space(t[k]) by {
            assert(t[k] == s@[from + k]);
        }
        lemma_word_run(t, (i - from) as nat);
    }
    i
}

/// The text without white space at its ends.
pub fn trim_text(s: &str) -> (r: String)
    ensures
        r@ == trimmed(s@),
{
    let chars = chars_of(s);
    assert(chars@.skip(0) =~= chars@);
    let start: usize = skip_spaces(&chars, 0);
    let mut end: usize = chars.len();
    while end > start && chars[end - 1].is_whitespace()
        invariant
            start <= end <= chars@.len(),
            forall|j: int| end <= j < chars@.len() ==> is_space(chars@[j]),
        decreases end,
    {
        end -= 1;
    }
    proof {
        let t = s@.skip(start as int);
        lemma_tail_run(t, (chars@.len() - end) as nat);
        assert(t.take(end - start) =~= chars@.subrange(start as int, end as int));
    }
    string_of(&chars, start, end)
}

/// A text without the white space at its front.
pub open spec fn trimmed_start(s: Seq<char>) -> Seq<char> {
    s.skip(space_run(s) as int)
}

/// A text without the white space at its front.
pub fn trim_start_text(s: &str) -> (r: String)
    ensures
        r@ == trimmed_start(s@),
{
    let chars = chars_of(s);
    assert(s@.skip(0) =~= s@);
    let from: usize = skip_spaces(&chars, 0);
    let r = string_of(&chars, from, chars.len());
    assert(r@ =~= trimmed_start(s@));
    r
}

/// The runs of characters between white space.
pub open spec fn words(s: Seq<char>) -> Seq<Seq<char>>
    decreases s.len(),
{
    let t = s.skip(space_run(s) as int);
    if t.len() == 0 || word_run(t) == 0 || space_run(s) > s.len() || word_run(t) > t.len() {
        Seq::empty()
    } else {
        seq![t.take(word_run(t) as int)] + words(t.skip(word_run(t) as int))
    }
}

/// Splits a text at white space.
pub fn split_words(s: &str) -> (r: Vec<String>)
    ensures
        texts(r@) == words(s@),
{
    let chars = chars_of(s);
    let mut r: Vec<String> = Vec::new();
    let mut i: usize = 0;
    assert(chars@.skip(0) =~= s@);
    assert(texts(r@) + words(s@) =~= words(s@));
    while i < chars.len()
        invariant
            i <= chars@.len(),
            chars@ == s@,
            texts(r@) + words(chars@.skip(i as int)) == words(s@),
        decreases chars@.len() - i,
    {
        let ghost rest = chars@.skip(i as int);
        let start: usize = skip_spaces(&chars, i);
        assert(rest.skip(start - i) =~= chars@.skip(start as int));
        if start == chars.len() {
            assert(words(rest) =~= Seq::<Seq<char>>::empty());
            assert(texts(r@) =~= words(s@));
            return r;
        }
        let end: usize = skip_word(&chars, start);
        let word = string_of(&chars, start, end);
        proof {
            let t = chars@.skip(start as int);
            assert(t[0] == chars@[start as int]);
            assert(t.take(end - start) =~= word@);
            assert(t.skip(end - start) =~= chars@.skip(end as int));
        }
        let ghost before = texts(r@);
        r.push(word);
        proof {
            assert(texts(r@) =~= before.push(word@));
            assert(before.push(word@) + words(chars@.skip(end as int)) =~= before + (seq![word@]
                + words(chars@.skip(end as int))));
        }
        i = end;
    }
    assert(chars@.skip(i as int) =~= Seq::<char>::empty());
    assert(words(Seq::<char>::empty()) =~= Seq::<Seq<char>>::empty());
    assert(texts(r@) =~= words(s@));
    r
}

/// What follows a prefix.
pub open spec fn after_prefix(s: Seq<char>, prefix: Seq<char>) -> Option<Seq<char>> {
    if prefix.is_prefix_of(s) {
        Some(s.skip(prefix.len() as int))
    } else {
        None
    }
}

/// What follows a prefix.
pub fn strip_prefix(s: &str, prefix: &str) -> (r: Option<String>)
    ensures
        opt_text(r) == after_prefix(s@, prefix@),
{
    let chars = chars_of(s);
    let head = chars_of(prefix);
    let n: usize = head.len();
    if matches_at(&chars, &head, 0) {
        assert(s@.subrange(0, n as int) =~= s@.take(n as int));
        assert(prefix@.is_prefix_of(s@));
        let r = string_of(&chars, n, chars.len());
        assert(r@ =~= s@.skip(n as int));
        Some(r)
    } else {
        proof {
            if prefix@.is_prefix_of(s@) {
                assert(s@.subrange(0, prefix@.len() as int) =~= prefix@);
            }
        }
        None
    }
}

/// Whether a word stands in a text, with no letter or number next to it.
pub open spec fn word_at(s: Seq<char>, word: Seq<char>, i: int) -> bool {
    &&& stands_at(s, word, i)
    &&& i == 0 || !is_word_char(s[i - 1])
    &&& i + word.len() == s.len() || !is_word_char(s[i + word.len()])
}

/// Whether a word stands somewhere in a text.
pub open spec fn has_word(s: Seq<char>, word: Seq<char>) -> bool {
    exists|i: int| word_at(s, word, i)
}

/// Says whether a word stands somewhere in a text.
pub fn contains_word(s: &str, word: &str) -> (r: bool)
    ensures
        r == has_word(s@, word@),
{
    let chars = chars_of(s);
    let part = chars_of(word);
    let n: usize = chars.len();
    let m: usize = part.len();
    let mut i: usize = 0;
    while i < n
        invariant
            i <= n == chars@.len(),
            m == part@.len(),
            chars@ == s@,
            part@ == word@,
            forall|j: int| 0 <= j < i ==> !word_at(s@, word@, j),
        decreases n - i,
    {
        if matches_at(&chars, &part, i) && (i == 0 || !chars[i - 1].is_alphanumeric()) && (i + m
            == n || !chars[i + m].is_alphanumeric()) {
            assert(word_at(s@, word@, i as int));
            return true;
        }
        assert(!word_at(s@, word@, i as int));
        i += 1;
    }
    if m == 0 {
        let at_end = n == 0 || !chars[n - 1].is_alphanumeric();
        proof {
            assert(s@.subrange(n as int, n as int) =~= word@);
            assert(at_end == word_at(s@, word@, n as int));
            if !at_end {
                assert forall|j: int| !word_at(s@, word@, j) by {
                    if j > n {
                        assert(!stands_at(s@, word@, j));
                    }
                }
            }
        }
        return at_end;
    }
    proof {
        assert forall|j: int| !word_at(s@, word@, j) by {
            if j >= n {
                assert(!stands_at(s@, word@, j));
            }
        }
    }
    false
}

/// A text with another in place of a part, wherever that stands.
pub open spec fn replaced(s: Seq<char>, part: Seq<char>, by: Seq<char>) -> Seq<char>
    decreases s.len(),
{
    let i = first_at(s, part, 0);
    if part.len() == 0 || i < 0 || i + part.len() > s.len() {
        s
    } else {
        s.take(i) + by + replaced(s.skip(i + part.len()), part, by)
    }
}

/// A text without a part, wherever that stands.
pub open spec fn without(s: Seq<char>, part: Seq<char>) -> Seq<char> {
    replaced(s, part, ""@)
}

/// Puts a text in place of a part, wherever that stands.
pub fn replace_all(s: &str, part: &str, by: &str) -> (r: String)
    ensures
        r@ == replaced(s@, part@, by@),
{
    let mut rest = chars_of(s);
    let needle = chars_of(part);
    let m: usize = needle.len();
    let mut r = String::new();
    if m == 0 {
        return owned(s);
    }
    assert(r@ + replaced(s@, part@, by@) =~= replaced(s@, part@, by@));
    loop
        invariant
            m == needle@.len() > 0,
            needle@ == part@,
            r@ + replaced(rest@, part@, by@) == replaced(s@, part@, by@),
        ensures
            r@ + rest@ == replaced(s@, part@, by@),
        decreases rest@.len(),
    {
        match find_from(&rest, &needle, 0) {
            Some(i) => {
                let ghost before = r@;
                let ghost text = rest@;
                let len: usize = rest.len();
                assert(i + m <= len);
                r.push_str(&string_of(&rest, 0, i));
                r.push_str(by);
                let behind = rest.split_off(i + m);
                rest = behind;
                proof {
                    assert(text.subrange(0, i as int) =~= text.take(i as int));
                    assert(rest@ =~= text.skip(i + m));
                    assert(r@ + replaced(rest@, part@, by@) =~= before + (text.take(i as int) + by@
                        + replaced(rest@, part@, by@)));
                }
            },
            None => {
                break;
            },
        }
    }
    r.push_str(&string_of(&rest, 0, rest.len()));
    assert(rest@.subrange(0, rest@.len() as int) =~= rest@);
    r
}

/// Takes a part out of a text, wherever it stands.
pub fn remove_all(s: &str, part: &str) -> (r: String)
    ensures
        r@ == without(s@, part@),
{
    replace_all(s, part, "")
}

/// Why a text does not stand for an unsigned integer.
#[derive(Debug, Clone, Copy, PartialEq, Eq, Structural)]
pub enum UintError {
    /// There is nothing to read.
    Empty,
    /// There is something else than a digit.
    InvalidDigit,
    /// The number does not fit.
    TooLarge,
}

impl UintError {
    /// The error in words.
    pub open spec fn words(self) -> Seq<char> {
        match self {
            UintError::Empty => "cannot parse integer from empty string"@,
            UintError::InvalidDigit => "invalid digit found in string"@,
            UintError::TooLarge => "number too large to fit in target type"@,
        }
    }

    /// The error in words.
    pub fn message(&self) -> (r: &'static str)
        ensures
            r@ == self.words(),
    {
        match self {
            UintError::Empty => "cannot parse integer from empty string",
            UintError::InvalidDigit => "invalid digit found in string",
            UintError::TooLarge => "number too large to fit in target type",
        }
    }
}

/// The value of decimal digits, read from left to right up to the first fault.
pub open spec fn digits_value(s: Seq<char>) -> Result<u64, UintError>
    decreases s.len(),
{
    if s.len() == 0 {
        Ok(0)
    } else {
        match digits_value(s.drop_last()) {
            Ok(n) => if !('0' <= s.last() <= '9') {
                Err(UintError::InvalidDigit)
            } else if n * 10 + (s.last() as int - '0' as int) > u64::MAX {
                Err(UintError::TooLarge)
            } else {
                Ok((n * 10 + (s.last() as int - '0' as int)) as u64)
            },
            Err(e) => Err(e),
        }
    }
}

/// The unsigned integer that a text stands for: digits, with at most a plus sign
/// before them.
pub open spec fn uint_value(s: Seq<char>) -> Result<u64, UintError> {
    if s.len() == 0 {
        Err(UintError::Empty)
    } else if s.len() > 1 && s[0] == '+' {
        digits_value(s.skip(1))
    } else {
        digits_value(s)
    }
}

proof fn lemma_fault_stays(s: Seq<char>, n: int)
    requires
        0 <= n <= s.len(),
        digits_value(s.take(n)) is Err,
    ensures
        digits_value(s) == digits_value(s.take(n)),
    decreases s.len() - n,
{
    if n == s.len() {
        assert(s.take(n) =~= s);
    } else {
        assert(s.take(n + 1).drop_last() =~= s.take(n));
        lemma_fault_stays(s, n + 1);
    }
}

/// Reads an unsigned integer of 64 bits.
pub fn parse_u64(s: &str) -> (r: Result<u64, UintError>)
    ensures
        r == uint_value(s@),
{
    let chars = chars_of(s);
    let n: usize = chars.len();
    if n == 0 {
        return Err(UintError::Empty);
    }
    let start: usize = if n > 1 && chars[0] == '+' {
        1
    } else {
        0
    };
    let ghost digits = s@.skip(start as int);
    assert(s@.skip(0) =~= s@);
    let mut value: u64 = 0;
    let mut i: usize = start;
    assert(digits.take(0) =~= Seq::<char>::empty());
    while i < n
        invariant
            start <= i <= n == chars@.len(),
            chars@ == s@,
            digits == s@.skip(start as int),
            uint_value(s@) == digits_value(digits),
            digits_value(digits.take(i - start)) == Ok::<u64, UintError>(value),
        decreases n - i,
    {
        let c: char = chars[i];
        assert(digits[i - start] == c);
        assert(digits.take(i - start + 1).drop_last() =~= digits.take(i - start));
        assert(digits.take(i - start + 1).last() == c);
        if !('0' <= c && c <= '9') {
            proof {
                lemma_fault_stays(digits, i - start + 1);
            }
            return Err(UintError::InvalidDigit);
        }
        let d: u64 = (c as u32 - '0' as u32) as u64;
        if value > (u64::MAX - d) / 10 {
            proof {
                lemma_fault_stays(digits, i - start + 1);
            }
            return Err(UintError::TooLarge);
        }
        value = value * 10 + d;
        i += 1;
    }
    assert(digits.take(n - start) =~= digits);
    Ok(value)
}

/// A number written in decimal is read as that number.
pub proof fn decimal_round_trip(n: u64)
    ensures
        digits_value(decimal(n as nat)) == Ok::<u64, UintError>(n),
        uint_value(decimal(n as nat)) == Ok::<u64, UintError>(n),
    decreases n,
{
    let s = decimal(n as nat);
    lemma_numeral_len(n as nat);
    lemma_decimal_digits(n as nat);
    if n < 10 {
        assert(s =~= seq![digit(n as int)]);
        assert(s.drop_last() =~= Seq::<char>::empty());
        assert(digits_value(s.drop_last()) == Ok::<u64, UintError>(0));
        assert(s.last() as int == '0' as int + n);
    } else {
        let m = (n / 10) as u64;
        decimal_round_trip(m);
        assert(s.drop_last() =~= decimal(m as nat));
        assert(s.last() == digit((n % 10) as int));
        assert(s.last() as int == '0' as int + n % 10);
        assert(m * 10 + n % 10 == n);
    }
    assert(s[0] != '+');
}

/// A number is written with digits alone, and with at least one.
pub proof fn lemma_decimal_digits(n: nat)
    ensures
        decimal(n).len() > 0,
        forall|i: int| 0 <= i < decimal(n).len() ==> '0' <= (#[trigger] decimal(n)[i]) <= '9',
    decreases n,
{
    if n >= 10 {
        lemma_decimal_digits((n / 10) as nat);
        let init = decimal((n / 10) as nat);
        assert(decimal(n) == init.push(digit((n % 10) as int)));
        assert forall|i: int| 0 <= i < decimal(n).len() implies '0' <= (
        #[trigger] decimal(n)[i]) <= '9' by {
            if i < init.len() {
                assert('0' <= init[i] <= '9');
            }
        }
    }
}

/// White space around a text that neither starts nor ends with any is dropped.
pub proof fn lemma_trimmed_between(a: Seq<char>, s: Seq<char>, b: Seq<char>)
    requires
        s.len() > 0,
        !is_space(s[0]),
        !is_space(s.last()),
        forall|i: int| 0 <= i < a.len() ==> is_space(#[trigger] a[i]),
        forall|i: int| 0 <= i < b.len() ==> is_space(#[trigger] b[i]),
    ensures
        trimmed(a + s + b) == s,
{
    let whole = a + s + b;
    assert forall|i: int| 0 <= i < a.len() implies is_space(whole[i]) by {
        assert(whole[i] == a[i]);
    }
    assert(whole[a.len() as int] == s[0]);
    lemma_space_run(whole, a.len());
    let t = whole.skip(a.len() as int);
    assert(t =~= s + b);
    assert forall|i: int| t.len() - b.len() <= i < t.len() implies is_space(t[i]) by {
        assert(t[i] == b[i - s.len()]);
    }
    assert(t[s.len() - 1] == s.last());
    lemma_tail_run(t, b.len());
    assert(t.take(s.len() as int) =~= s);
}

} // verus!
