//! Character-level text primitives: conversion, comparison, substring search,
//! trimming, line splitting and ordering. Everything is stated over `Seq<char>`,
//! so no result ever depends on how a string is encoded in bytes.

use vstd::prelude::*;

verus! {

/// What `str::to_lowercase` yields for a text.
pub uninterp spec fn lowered(s: Seq<char>) -> Seq<char>;

/// What `char::to_lowercase` yields for a character.
pub uninterp spec fn lowered_char(c: char) -> Seq<char>;

/// Whether a character is whitespace: one of the code points that Unicode
/// lists with the property `White_Space`.
pub open spec fn whitespace(c: char) -> bool {
    let n = c as int;
    ||| 0x09 <= n <= 0x0D
    ||| n == 0x20
    ||| n == 0x85
    ||| n == 0xA0
    ||| n == 0x1680
    ||| 0x2000 <= n <= 0x200A
    ||| n == 0x2028
    ||| n == 0x2029
    ||| n == 0x202F
    ||| n == 0x205F
    ||| n == 0x3000
}

/// `str::to_lowercase`: the lowercase form of a text. The mapping follows the
/// Unicode tables, so the contract only names the result.
#[verifier::external_body]
pub(crate) fn lowercase(s: &str) -> (r: String)
    ensures
        r@ == lowered(s@),
{
    s.to_lowercase()
}

/// `char::to_lowercase`, counted: the number of characters in the lowercase
/// form of a character. The mapping follows the Unicode tables, so the contract
/// only names the form.
#[verifier::external_body]
pub(crate) fn lower_len(c: char) -> (r: usize)
    ensures
        r == lowered_char(c).len(),
{
    c.to_lowercase().len()
}

/// `char::is_whitespace`: whether the character has the Unicode property
/// `White_Space`, which `whitespace` lists code point by code point.
#[verifier::external_body]
pub(crate) fn is_space(c: char) -> (r: bool)
    ensures
        r == whitespace(c),
{
    c.is_whitespace()
}

/// `String::from_iter` over the characters of a vector: the string whose
/// characters are exactly those, in order.
#[verifier::external_body]
pub(crate) fn string_of(chars: &Vec<char>) -> (r: String)
    ensures
        r@ == chars@,
{
    String::from_iter(chars.iter())
}

/// The characters of a string, in order.
pub fn chars_of(s: &str) -> (r: Vec<char>)
    ensures
        r@ == s@,
{
    let mut out: Vec<char> = Vec::new();
    for c in it: s.chars()
        invariant
            out@ == it.seq().take(it.index() as int),
            it.seq() == s@,
    {
        out.push(c);
    }
    out
}

/// Whether two character vectors hold the same text.
pub fn same_chars(a: &Vec<char>, b: &Vec<char>) -> (r: bool)
    ensures
        r == (a@ == b@),
{
    if a.len() != b.len() {
        return false;
    }
    let mut i: usize = 0;
    while i < a.len()
        invariant
            a.len() == b.len(),
            i <= a.len(),
            forall|k: int| 0 <= k < i ==> a@[k] == b@[k],
        decreases a.len() - i,
    {
        if a[i] != b[i] {
            return false;
        }
        i += 1;
    }
    assert(a@ =~= b@);
    true
}

/// Whether two strings hold the same text.
pub fn same_text(a: &str, b: &str) -> (r: bool)
    ensures
        r == (a@ == b@),
{
    let x = chars_of(a);
    let y = chars_of(b);
    same_chars(&x, &y)
}

/// `needle` occurs in `hay` starting at character `i`.
pub open spec fn matches_at(hay: Seq<char>, needle: Seq<char>, i: int) -> bool {
    0 <= i && i + needle.len() <= hay.len() && hay.subrange(i, i + needle.len()) == needle
}

/// `needle` occurs somewhere in `hay`.
pub open spec fn contains_text(hay: Seq<char>, needle: Seq<char>) -> bool {
    exists|i: int| matches_at(hay, needle, i)
}

/// The least position at or after `from` at which `needle` occurs in `hay`.
pub open spec fn first_match_from(hay: Seq<char>, needle: Seq<char>, from: int) -> Option<int>
    decreases hay.len() - from + 1,
{
    if from < 0 || from + needle.len() > hay.len() {
        None
    } else if matches_at(hay, needle, from) {
        Some(from)
    } else {
        first_match_from(hay, needle, from + 1)
    }
}

/// The position of the first occurrence of `needle` in `hay`.
pub open spec fn first_match(hay: Seq<char>, needle: Seq<char>) -> Option<int> {
    first_match_from(hay, needle, 0)
}

/// `first_match_from` yields an occurrence, the earliest one at or after `from`,
/// and yields nothing only where there is none.
pub proof fn lemma_first_match_from(hay: Seq<char>, needle: Seq<char>, from: int)
    requires
        0 <= from,
    ensures
        match first_match_from(hay, needle, from) {
            Some(i) => from <= i && matches_at(hay, needle, i) && forall|j: int|
                from <= j < i ==> !matches_at(hay, needle, j),
            None => forall|j: int| from <= j ==> !matches_at(hay, needle, j),
        },
    decreases hay.len() - from + 1,
{
    if from + needle.len() > hay.len() {
    } else if matches_at(hay, needle, from) {
    } else {
        lemma_first_match_from(hay, needle, from + 1);
    }
}

/// A text contains a needle exactly when a first occurrence exists.
pub proof fn lemma_contains_iff_first_match(hay: Seq<char>, needle: Seq<char>)
    ensures
        contains_text(hay, needle) <==> first_match(hay, needle) is Some,
{
    lemma_first_match_from(hay, needle, 0);
}

/// Whether `needle` occurs in `hay` at position `i`.
pub fn occurs_at(hay: &Vec<char>, needle: &Vec<char>, i: usize) -> (r: bool)
    requires
        i + needle.len() <= hay.len(),
    ensures
        r == matches_at(hay@, needle@, i as int),
{
    let mut k: usize = 0;
    while k < needle.len()
        invariant
            i + needle.len() <= hay.len(),
            k <= needle.len(),
            forall|j: int| 0 <= j < k ==> hay@[i + j] == needle@[j],
        decreases needle.len() - k,
    {
        if hay[i + k] != needle[k] {
            assert(hay@.subrange(i as int, i + needle.len())[k as int] != needle@[k as int]);
            return false;
        }
        k += 1;
    }
    assert(hay@.subrange(i as int, i + needle.len()) =~= needle@);
    true
}

/// The first position at or after `from` at which `needle` occurs in `hay`.
pub fn find_from(hay: &Vec<char>, needle: &Vec<char>, from: usize) -> (r: Option<usize>)
    ensures
        match r {
            Some(i) => first_match_from(hay@, needle@, from as int) == Some(i as int),
            None => first_match_from(hay@, needle@, from as int) is None,
        },
{
    if needle.len() > hay.len() || from > hay.len() - needle.len() {
        return None;
    }
    let last: usize = hay.len() - needle.len();
    let mut i: usize = from;
    loop
        invariant
            last == hay.len() - needle.len(),
            from <= i <= last,
            first_match_from(hay@, needle@, from as int) == first_match_from(
                hay@,
                needle@,
                i as int,
            ),
        decreases last - i,
    {
        if occurs_at(hay, needle, i) {
            return Some(i);
        }
        if i == last {
            return None;
        }
        i += 1;
    }
}

/// The position of the first occurrence of `needle` in `hay`.
pub fn find(hay: &Vec<char>, needle: &Vec<char>) -> (r: Option<usize>)
    ensures
        match r {
            Some(i) => first_match(hay@, needle@) == Some(i as int),
            None => first_match(hay@, needle@) is None,
        },
{
    find_from(hay, needle, 0)
}

/// Whether `needle` occurs in `hay`.
pub fn contains(hay: &Vec<char>, needle: &Vec<char>) -> (r: bool)
    ensures
        r == contains_text(hay@, needle@),
{
    proof {
        lemma_contains_iff_first_match(hay@, needle@);
    }
    find(hay, needle).is_some()
}

/// `suffix` is the tail end of `s`.
pub open spec fn has_suffix(s: Seq<char>, suffix: Seq<char>) -> bool {
    suffix.len() <= s.len() && s.subrange(s.len() - suffix.len(), s.len() as int) == suffix
}

/// Whether `s` ends with `suffix`.
pub fn ends_with(s: &Vec<char>, suffix: &Vec<char>) -> (r: bool)
    ensures
        r == has_suffix(s@, suffix@),
{
    if suffix.len() > s.len() {
        return false;
    }
    occurs_at(s, suffix, s.len() - suffix.len())
}

/// The first position at or after `i` that holds no whitespace, or the length.
pub open spec fn skip_space(s: Seq<char>, i: int) -> int
    decreases s.len() - i,
{
    if 0 <= i < s.len() && whitespace(s[i]) {
        skip_space(s, i + 1)
    } else {
        i
    }
}

/// The end of the text before position `j` once trailing whitespace is dropped.
pub open spec fn drop_space(s: Seq<char>, j: int) -> int
    decreases j,
{
    if 0 < j <= s.len() && whitespace(s[j - 1]) {
        drop_space(s, j - 1)
    } else {
        j
    }
}

/// The text without its leading and trailing whitespace.
pub open spec fn trimmed(s: Seq<char>) -> Seq<char> {
    let a = skip_space(s, 0);
    let b = drop_space(s, s.len() as int);
    if a < b {
        s.subrange(a, b)
    } else {
        Seq::empty()
    }
}

/// In a text of whitespace only, skipping whitespace leads to the end.
pub proof fn lemma_skip_all_space(s: Seq<char>, i: int)
    requires
        0 <= i <= s.len(),
        forall|k: int| 0 <= k < s.len() ==> whitespace(#[trigger] s[k]),
    ensures
        skip_space(s, i) == s.len(),
    decreases s.len() - i,
{
    if i < s.len() {
        lemma_skip_all_space(s, i + 1);
    }
}

/// A text of whitespace only is empty once it is trimmed.
pub proof fn lemma_trimmed_blank(s: Seq<char>)
    requires
        forall|k: int| 0 <= k < s.len() ==> whitespace(#[trigger] s[k]),
    ensures
        trimmed(s).len() == 0,
{
    lemma_skip_all_space(s, 0);
    lemma_drop_space_bound(s, s.len() as int);
}

/// Dropping trailing whitespace never moves past the position it starts at.
pub proof fn lemma_drop_space_bound(s: Seq<char>, j: int)
    requires
        0 <= j <= s.len(),
    ensures
        0 <= drop_space(s, j) <= j,
    decreases j,
{
    if 0 < j && whitespace(s[j - 1]) {
        lemma_drop_space_bound(s, j - 1);
    }
}

/// The bounds of the trimmed part of a text: it is `s[a..b]` when `a < b` and
/// empty otherwise.
pub fn trim_bounds(s: &Vec<char>) -> (r: (usize, usize))
    ensures
        r.0 == skip_space(s@, 0),
        r.1 == drop_space(s@, s@.len() as int),
        r.0 <= s.len(),
        r.1 <= s.len(),
{
    let mut a: usize = 0;
    while a < s.len() && is_space(s[a])
        invariant
            a <= s.len(),
            skip_space(s@, 0) == skip_space(s@, a as int),
        decreases s.len() - a,
    {
        a += 1;
    }
    let mut b: usize = s.len();
    while b > 0 && is_space(s[b - 1])
        invariant
            b <= s.len(),
            drop_space(s@, s@.len() as int) == drop_space(s@, b as int),
        decreases b,
    {
        b -= 1;
    }
    (a, b)
}

/// A copy of the characters of `s` from `from` up to `to`.
pub fn slice(s: &Vec<char>, from: usize, to: usize) -> (r: Vec<char>)
    requires
        from <= to <= s.len(),
    ensures
        r@ == s@.subrange(from as int, to as int),
{
    let mut out: Vec<char> = Vec::new();
    let mut i: usize = from;
    while i < to
        invariant
            from <= i <= to <= s.len(),
            out@ == s@.subrange(from as int, i as int),
        decreases to - i,
    {
        out.push(s[i]);
        assert(s@.subrange(from as int, i as int).push(s@[i as int]) =~= s@.subrange(
            from as int,
            i + 1,
        ));
        i += 1;
    }
    out
}

/// The text without its leading and trailing whitespace.
pub fn trim(s: &Vec<char>) -> (r: Vec<char>)
    ensures
        r@ == trimmed(s@),
{
    let (a, b) = trim_bounds(s);
    if a < b {
        slice(s, a, b)
    } else {
        Vec::new()
    }
}

/// Whether a text holds nothing but whitespace.
pub fn is_blank(s: &str) -> (r: bool)
    ensures
        r == (trimmed(s@).len() == 0),
{
    let chars = chars_of(s);
    let (a, b) = trim_bounds(&chars);
    a >= b
}

/// The position of the first line feed at or after `i`, or the length.
pub open spec fn line_end(s: Seq<char>, i: int) -> int
    decreases s.len() - i,
{
    if 0 <= i < s.len() && s[i] != '\n' {
        line_end(s, i + 1)
    } else {
        i
    }
}

/// `line_end` lies between its start and the end of the text.
pub proof fn lemma_line_end_bounds(s: Seq<char>, i: int)
    requires
        0 <= i <= s.len(),
    ensures
        i <= line_end(s, i) <= s.len(),
    decreases s.len() - i,
{
    if i < s.len() && s[i] != '\n' {
        lemma_line_end_bounds(s, i + 1);
    }
}

/// The line that starts at `i`: the text up to the next line feed, without the
/// carriage return that may stand directly before that line feed.
pub open spec fn line_at(s: Seq<char>, i: int) -> Seq<char> {
    let e = line_end(s, i);
    if e < s.len() && i < e && s[e - 1] == '\r' {
        s.subrange(i, e - 1)
    } else {
        s.subrange(i, e)
    }
}

/// The lines of the text from position `i` on.
pub open spec fn lines_from(s: Seq<char>, i: int) -> Seq<Seq<char>>
    decreases s.len() - i + 1,
    when 0 <= i
    via lines_from_decreases
{
    if i >= s.len() {
        Seq::empty()
    } else {
        seq![line_at(s, i)] + lines_from(s, line_end(s, i) + 1)
    }
}

#[via_fn]
proof fn lines_from_decreases(s: Seq<char>, i: int) {
    if i < s.len() {
        lemma_line_end_bounds(s, i);
    }
}

/// The lines of a text. A line ends at a line feed or at the end of the text; a
/// carriage return directly before the line feed belongs to the line ending; a
/// text that ends with a line ending has no empty last line.
pub open spec fn lines_of(s: Seq<char>) -> Seq<Seq<char>> {
    lines_from(s, 0)
}

/// The lines of a text.
pub fn lines(s: &Vec<char>) -> (r: Vec<Vec<char>>)
    ensures
        r@.len() == lines_of(s@).len(),
        forall|k: int| 0 <= k < r@.len() ==> (#[trigger] r@[k])@ == lines_of(s@)[k],
{
    let mut out: Vec<Vec<char>> = Vec::new();
    let mut i: usize = 0;
    while i < s.len()
        invariant
            i <= s.len(),
            lines_of(s@).len() == out@.len() + lines_from(s@, i as int).len(),
            forall|k: int| 0 <= k < out@.len() ==> (#[trigger] out@[k])@ == lines_of(s@)[k],
            forall|k: int|
                0 <= k < lines_from(s@, i as int).len() ==> lines_of(s@)[out@.len() + k]
                    == #[trigger] lines_from(s@, i as int)[k],
        decreases s.len() - i,
    {
        let mut e: usize = i;
        while e < s.len() && s[e] != '\n'
            invariant
                i <= e <= s.len(),
                line_end(s@, i as int) == line_end(s@, e as int),
            decreases s.len() - e,
        {
            e += 1;
        }
        let line = if e < s.len() && i < e && s[e - 1] == '\r' {
            slice(s, i, e - 1)
        } else {
            slice(s, i, e)
        };
        proof {
            let rest = lines_from(s@, e + 1);
            assert(lines_from(s@, i as int) == seq![line_at(s@, i as int)] + rest);
            assert(lines_from(s@, i as int)[0] == line_at(s@, i as int));
            assert forall|k: int| 0 <= k < rest.len() implies lines_of(s@)[out@.len() + 1 + k]
                == #[trigger] rest[k] by {
                assert(lines_from(s@, i as int)[k + 1] == rest[k]);
            }
        }
        out.push(line);
        i = if e < s.len() {
            e + 1
        } else {
            e
        };
    }
    out
}

/// `a` comes strictly before `b` from position `i` on, given that they agree
/// before it: texts are ordered character by character, by code point, and a
/// text comes before every longer text that it begins.
pub open spec fn less_from(a: Seq<char>, b: Seq<char>, i: int) -> bool
    decreases a.len() - i,
{
    if i < 0 || i >= b.len() {
        false
    } else if i >= a.len() {
        true
    } else if a[i] != b[i] {
        (a[i] as int) < (b[i] as int)
    } else {
        less_from(a, b, i + 1)
    }
}

/// `a` comes strictly before `b` in lexicographic order.
pub open spec fn text_less(a: Seq<char>, b: Seq<char>) -> bool {
    less_from(a, b, 0)
}

/// Whether `a` comes strictly before `b` in lexicographic order.
pub fn less(a: &Vec<char>, b: &Vec<char>) -> (r: bool)
    ensures
        r == text_less(a@, b@),
{
    let mut i: usize = 0;
    while i < a.len() && i < b.len()
        invariant
            i <= a.len(),
            i <= b.len(),
            text_less(a@, b@) == less_from(a@, b@, i as int),
        decreases a.len() - i,
    {
        if a[i] != b[i] {
            return a[i] < b[i];
        }
        i += 1;
    }
    i < b.len()
}

/// Nothing comes before itself.
pub proof fn lemma_less_irreflexive(a: Seq<char>, i: int)
    requires
        0 <= i,
    ensures
        !less_from(a, a, i),
    decreases a.len() - i,
{
    if i < a.len() {
        lemma_less_irreflexive(a, i + 1);
    }
}

/// The order is transitive.
pub proof fn lemma_less_transitive(a: Seq<char>, b: Seq<char>, c: Seq<char>, i: int)
    requires
        0 <= i,
        less_from(a, b, i),
        less_from(b, c, i),
    ensures
        less_from(a, c, i),
    decreases a.len() - i,
{
    if i < a.len() && i < b.len() && i < c.len() && a[i] == b[i] && b[i] == c[i] {
        lemma_less_transitive(a, b, c, i + 1);
    }
}

} // verus!
