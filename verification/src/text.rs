//! Text helpers shared by the rest of the crate: equality of string slices,
//! decimal numerals, and trimming of white space.

use vstd::prelude::*;

verus! {

/// The numeral for a single decimal digit.
pub open spec fn digit_char(d: nat) -> char {
    if d == 0 {
        '0'
    } else if d == 1 {
        '1'
    } else if d == 2 {
        '2'
    } else if d == 3 {
        '3'
    } else if d == 4 {
        '4'
    } else if d == 5 {
        '5'
    } else if d == 6 {
        '6'
    } else if d == 7 {
        '7'
    } else if d == 8 {
        '8'
    } else {
        '9'
    }
}

/// Whether `c` is one of the ten decimal digits.
pub open spec fn is_digit(c: char) -> bool {
    '0' <= c <= '9'
}

/// The value of a decimal digit.
pub open spec fn digit_value(c: char) -> nat
    recommends
        is_digit(c),
{
    (c as nat - '0' as nat) as nat
}

/// The decimal numeral of `n`, without sign or leading zeros.
pub open spec fn decimal(n: nat) -> Seq<char>
    decreases n,
{
    if n < 10 {
        seq![digit_char(n)]
    } else {
        decimal(n / 10).push(digit_char(n % 10))
    }
}

/// Whether every character of `s` is a decimal digit.
pub open spec fn all_digits(s: Seq<char>) -> bool {
    forall|i: int| 0 <= i < s.len() ==> is_digit(#[trigger] s[i])
}

/// The number that a run of decimal digits denotes; leading zeros count for
/// nothing and the empty run denotes zero.
pub open spec fn digits_value(s: Seq<char>) -> nat
    decreases s.len(),
{
    if s.len() == 0 {
        0
    } else {
        digits_value(s.drop_last()) * 10 + digit_value(s.last())
    }
}

/// A numeral is never empty and holds digits only.
pub proof fn lemma_decimal_digits(n: nat)
    ensures
        decimal(n).len() >= 1,
        all_digits(decimal(n)),
    decreases n,
{
    if n >= 10 {
        lemma_decimal_digits(n / 10);
    }
}

/// Reading a numeral back gives the number it was written from.
pub proof fn lemma_decimal_value(n: nat)
    ensures
        digits_value(decimal(n)) == n,
    decreases n,
{
    if n < 10 {
        let s = decimal(n);
        assert(s.drop_last() =~= Seq::<char>::empty());
        assert(digits_value(s.drop_last()) == 0);
    } else {
        lemma_decimal_value(n / 10);
        let s = decimal(n);
        assert(s.drop_last() =~= decimal(n / 10));
    }
}

/// Different numbers have different numerals.
pub proof fn lemma_decimal_injective(a: nat, b: nat)
    requires
        decimal(a) == decimal(b),
    ensures
        a == b,
{
    lemma_decimal_value(a);
    lemma_decimal_value(b);
}

/// Whether two string slices hold the same characters.
pub fn str_eq(a: &str, b: &str) -> (same: bool)
    ensures
        same == (a@ == b@),
{
    let x = String::from_str(a);
    let y = String::from_str(b);
    x == y
}

pub(crate) fn digit_str(d: u64) -> (s: &'static str)
    requires
        d < 10,
    ensures
        s@ == seq![digit_char(d as nat)],
{
    proof {
        reveal_strlit("0");
        reveal_strlit("1");
        reveal_strlit("2");
        reveal_strlit("3");
        reveal_strlit("4");
        reveal_strlit("5");
        reveal_strlit("6");
        reveal_strlit("7");
        reveal_strlit("8");
        reveal_strlit("9");
    }
    let s = if d == 0 {
        "0"
    } else if d == 1 {
        "1"
    } else if d == 2 {
        "2"
    } else if d == 3 {
        "3"
    } else if d == 4 {
        "4"
    } else if d == 5 {
        "5"
    } else if d == 6 {
        "6"
    } else if d == 7 {
        "7"
    } else if d == 8 {
        "8"
    } else {
        "9"
    };
    assert(s@ =~= seq![digit_char(d as nat)]);
    s
}

/// Writes `n` as a decimal numeral.
pub fn decimal_string(n: u64) -> (s: String)
    ensures
        s@ == decimal(n as nat),
    decreases n,
{
    if n < 10 {
        String::from_str(digit_str(n))
    } else {
        let mut s = decimal_string(n / 10);
        s.append(digit_str(n % 10));
        assert(s@ =~= decimal(n as nat));
        s
    }
}

/// The characters of a string slice, one by one.
pub fn chars_of(s: &str) -> (chars: Vec<char>)
    ensures
        chars@ == s@,
{
    let mut chars: Vec<char> = Vec::new();
    for c in it: s.chars()
        invariant
            chars@ == it.seq().take(it.index() as int),
            it.seq() == s@,
    {
        chars.push(c);
    }
    chars
}

/// The least position below `len` at which `holds`, or `len` where there is
/// none.
pub open spec fn least_index(len: int, holds: spec_fn(int) -> bool) -> int {
    if exists|i: int| 0 <= i < len && #[trigger] holds(i) {
        choose|i: int|
            0 <= i < len && #[trigger] holds(i) && forall|k: int| 0 <= k < i ==> !#[trigger] holds(k)
    } else if len >= 0 {
        len
    } else {
        0
    }
}

/// `least_index` is `i` where `holds` at `i`, or `i` is `len`, and `holds`
/// at no position before `i`.
pub proof fn lemma_least_index(len: int, holds: spec_fn(int) -> bool, i: int)
    requires
        0 <= i <= len,
        i < len ==> holds(i),
        forall|k: int| 0 <= k < i ==> !#[trigger] holds(k),
    ensures
        least_index(len, holds) == i,
{
    if i < len {
        let c = choose|c: int|
            0 <= c < len && #[trigger] holds(c) && forall|k: int| 0 <= k < c ==> !#[trigger] holds(k);
        assert(holds(c));
        if c < i {
            assert(!holds(c));
        }
        if i < c {
            assert(!holds(i));
        }
    }
}

/// What `least_index` finds: a position at which `holds`, or `len`, with
/// no position before it at which `holds`.
pub proof fn lemma_least_index_found(len: int, holds: spec_fn(int) -> bool)
    requires
        0 <= len,
    ensures
        0 <= least_index(len, holds) <= len,
        least_index(len, holds) < len ==> holds(least_index(len, holds)),
        forall|k: int| 0 <= k < least_index(len, holds) ==> !#[trigger] holds(k),
{
    if exists|i: int| 0 <= i < len && #[trigger] holds(i) {
        let i = choose|i: int| 0 <= i < len && #[trigger] holds(i);
        lemma_least_exists(len, holds, i);
    }
}

proof fn lemma_least_exists(len: int, holds: spec_fn(int) -> bool, i: int)
    requires
        0 <= i < len,
        holds(i),
    ensures
        exists|j: int|
            0 <= j < len && #[trigger] holds(j) && forall|k: int|
                0 <= k < j ==> !#[trigger] holds(k),
    decreases i,
{
    if exists|k: int| 0 <= k < i && #[trigger] holds(k) {
        let k = choose|k: int| 0 <= k < i && #[trigger] holds(k);
        lemma_least_exists(len, holds, k);
    } else {
        assert(holds(i) && forall|k: int| 0 <= k < i ==> !#[trigger] holds(k));
    }
}

/// The place of the first `c` in `s`, or the length of `s` where there is
/// none.
pub open spec fn first_index_of(s: Seq<char>, c: char) -> int {
    if exists|i: int| 0 <= i < s.len() && s[i] == c {
        choose|i: int| 0 <= i < s.len() && s[i] == c && forall|k: int| 0 <= k < i ==> s[k] != c
    } else {
        s.len() as int
    }
}

/// What `first_index_of` finds: a place at which `c` stands, or the length
/// of `s`, with no `c` before it.
pub proof fn lemma_first_index_found(s: Seq<char>, c: char)
    ensures
        0 <= first_index_of(s, c) <= s.len(),
        first_index_of(s, c) < s.len() ==> s[first_index_of(s, c)] == c,
        forall|k: int| 0 <= k < first_index_of(s, c) ==> s[k] != c,
{
    if exists|i: int| 0 <= i < s.len() && s[i] == c {
        let i = choose|i: int| 0 <= i < s.len() && s[i] == c;
        lemma_first_exists(s, c, i);
    }
}

proof fn lemma_first_exists(s: Seq<char>, c: char, i: int)
    requires
        0 <= i < s.len(),
        s[i] == c,
    ensures
        exists|j: int| 0 <= j < s.len() && s[j] == c && forall|k: int| 0 <= k < j ==> s[k] != c,
    decreases i,
{
    if exists|k: int| 0 <= k < i && s[k] == c {
        let k = choose|k: int| 0 <= k < i && s[k] == c;
        lemma_first_exists(s, c, k);
    } else {
        assert(s[i] == c && forall|k: int| 0 <= k < i ==> s[k] != c);
    }
}

/// `first_index_of` is `i` where `c` stands at `i`, or `i` is the length of
/// `s`, and `c` stands nowhere before `i`.
pub proof fn lemma_first_index_of(s: Seq<char>, c: char, at: int)
    requires
        0 <= at <= s.len(),
        at < s.len() ==> s[at] == c,
        forall|k: int| 0 <= k < at ==> s[k] != c,
    ensures
        first_index_of(s, c) == at,
{
    if at < s.len() {
        let found = choose|i: int|
            0 <= i < s.len() && s[i] == c && forall|k: int| 0 <= k < i ==> s[k] != c;
        assert(s[found] == c);
        if found < at {
            assert(s[found] != c);
        }
    }
}

/// Whether `c` is white space: a character with the Unicode property
/// `White_Space`.
pub open spec fn is_whitespace(c: char) -> bool {
    ||| '\u{9}' <= c <= '\u{d}'
    ||| c == ' '
    ||| c == '\u{85}'
    ||| c == '\u{a0}'
    ||| c == '\u{1680}'
    ||| '\u{2000}' <= c <= '\u{200a}'
    ||| c == '\u{2028}'
    ||| c == '\u{2029}'
    ||| c == '\u{202f}'
    ||| c == '\u{205f}'
    ||| c == '\u{3000}'
}

/// The place of the first character of `s` that is no white space, or the
/// length of `s` where all is white space.
pub open spec fn first_non_space(s: Seq<char>) -> int {
    least_index(s.len() as int, |i: int| !is_whitespace(s[i]))
}

/// How many characters of white space `s` ends with.
pub open spec fn trailing_space(s: Seq<char>) -> int {
    least_index(s.len() as int, |i: int| !is_whitespace(s[s.len() - 1 - i]))
}

/// `s` without the white space at its start and at its end.
pub open spec fn trimmed(s: Seq<char>) -> Seq<char> {
    let start = first_non_space(s);
    if start == s.len() {
        Seq::empty()
    } else {
        s.subrange(start, s.len() - trailing_space(s))
    }
}

/// Whether `part` is a stretch of `whole`: what stands in it from one place
/// to another.
pub open spec fn is_part(part: Seq<char>, whole: Seq<char>) -> bool {
    exists|from: int, to: int|
        0 <= from <= to <= whole.len() && part == #[trigger] whole.subrange(from, to)
}

/// A stretch of a stretch of a text is a stretch of that text.
pub proof fn lemma_part_of_part(inner: Seq<char>, middle: Seq<char>, whole: Seq<char>)
    requires
        is_part(inner, middle),
        is_part(middle, whole),
    ensures
        is_part(inner, whole),
{
    let (a, b) = choose|a: int, b: int|
        0 <= a <= b <= whole.len() && middle == #[trigger] whole.subrange(a, b);
    let (c, d) = choose|c: int, d: int|
        0 <= c <= d <= middle.len() && inner == #[trigger] middle.subrange(c, d);
    assert(inner =~= whole.subrange(a + c, a + d));
}

/// Trimmed text is a part of the text it came from, and neither starts nor
/// ends with white space.
pub proof fn lemma_trimmed(s: Seq<char>)
    ensures
        is_part(trimmed(s), s),
        exists|from: int, to: int|
            0 <= from <= to <= s.len() && trimmed(s) == #[trigger] s.subrange(from, to),
        trimmed(s).len() > 0 ==> !is_whitespace(trimmed(s).first()) && !is_whitespace(
            trimmed(s).last(),
        ),
{
    let starts = |i: int| !is_whitespace(s[i]);
    let ends = |i: int| !is_whitespace(s[s.len() - 1 - i]);
    lemma_least_index_found(s.len() as int, starts);
    lemma_least_index_found(s.len() as int, ends);
    let start = first_non_space(s);
    let tail = trailing_space(s);
    if start == s.len() {
        assert(trimmed(s) == s.subrange(0, 0));
    } else {
        assert(starts(start));
        if tail == s.len() {
            assert(!ends(s.len() - 1 - start));
        }
        assert(ends(tail));
        if s.len() - tail <= start {
            assert(!starts(s.len() - 1 - tail));
        }
        assert(trimmed(s) == s.subrange(start, s.len() - tail));
    }
}

/// A text that neither starts nor ends with white space is trimmed as it
/// stands.
pub proof fn lemma_trimmed_unchanged(s: Seq<char>)
    requires
        s.len() > 0,
        !is_whitespace(s.first()),
        !is_whitespace(s.last()),
    ensures
        trimmed(s) == s,
{
    lemma_least_index(s.len() as int, |i: int| !is_whitespace(s[i]), 0);
    lemma_least_index(s.len() as int, |i: int| !is_whitespace(s[s.len() - 1 - i]), 0);
    assert(s.subrange(0, s.len() as int) =~= s);
}

/// Whether `c` is white space.
pub fn char_is_whitespace(c: char) -> (yes: bool)
    ensures
        yes == is_whitespace(c),
{
    ('\u{9}' <= c && c <= '\u{d}') || c == ' ' || c == '\u{85}' || c == '\u{a0}' || c
        == '\u{1680}' || ('\u{2000}' <= c && c <= '\u{200a}') || c == '\u{2028}' || c
        == '\u{2029}' || c == '\u{202f}' || c == '\u{205f}' || c == '\u{3000}'
}

/// The place of the first `c` in `s`, counted in characters, or the number
/// of characters of `s` where there is none.
pub fn index_of_char(s: &str, c: char) -> (at: usize)
    ensures
        at == first_index_of(s@, c),
        at <= s@.len(),
{
    let chars = chars_of(s);
    let mut i: usize = 0;
    while i < chars.len() && chars[i] != c
        invariant
            i <= chars.len(),
            chars@ == s@,
            forall|k: int| 0 <= k < i ==> s@[k] != c,
        decreases chars.len() - i,
    {
        i += 1;
    }
    proof {
        lemma_first_index_of(s@, c, i as int);
    }
    i
}

/// `s` without the white space at its start and at its end.
pub fn trim(s: &str) -> (t: &str)
    ensures
        t@ == trimmed(s@),
{
    let chars = chars_of(s);
    let len: usize = chars.len();
    let mut start: usize = 0;
    while start < len && char_is_whitespace(chars[start])
        invariant
            start <= len,
            len == chars.len(),
            chars@ == s@,
            forall|k: int| 0 <= k < start ==> is_whitespace(s@[k]),
        decreases len - start,
    {
        start += 1;
    }
    proof {
        lemma_least_index(s@.len() as int, |i: int| !is_whitespace(s@[i]), start as int);
    }
    if start == len {
        return s.substring_char(0, 0);
    }
    let mut end: usize = len;
    while end > start + 1 && char_is_whitespace(chars[end - 1])
        invariant
            start < end <= len,
            len == chars.len(),
            chars@ == s@,
            !is_whitespace(s@[start as int]),
            forall|k: int| end <= k < len ==> is_whitespace(s@[k]),
        decreases end,
    {
        end -= 1;
    }
    proof {
        let holds = |i: int| !is_whitespace(s@[s@.len() - 1 - i]);
        assert forall|k: int| 0 <= k < len - end implies !#[trigger] holds(k) by {
            assert(is_whitespace(s@[len - 1 - k]));
        }
        assert(!is_whitespace(s@[end - 1]));
        assert(holds(len - end));
        lemma_least_index(s@.len() as int, holds, len - end);
    }
    s.substring_char(start, end)
}

} // verus!
