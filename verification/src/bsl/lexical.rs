//! Lexical building blocks of the line-oriented BSL extractors.
//!
//! Every scanner works on the Unicode scalar values of one line and reports
//! positions as scalar indices; callers convert them to UTF-8 byte offsets.

use vstd::prelude::*;

use crate::text::{
    is_alphabetic, is_alphanumeric, is_whitespace, skip_ws, skip_whitespace, unicode_alphabetic,
    unicode_alphanumeric, unicode_whitespace, lemma_skip_ws_bounds,
};

verus! {

/// A scalar that may continue a BSL word: `_` or a Unicode alphanumeric scalar.
pub open spec fn word_char(c: char) -> bool {
    c == '_' || unicode_alphanumeric(c)
}

/// A scalar that may start a BSL identifier: `_` or a Unicode alphabetic scalar.
pub open spec fn ident_start(c: char) -> bool {
    c == '_' || unicode_alphabetic(c)
}

/// End of the run of word scalars that starts at `i`.
pub open spec fn word_end(t: Seq<char>, i: int) -> int
    decreases t.len() - i,
{
    if 0 <= i < t.len() && word_char(t[i]) {
        word_end(t, i + 1)
    } else {
        i
    }
}

/// The first word of `t` at or after `i`, once whitespace is skipped, as a scalar range.
pub open spec fn token_from(t: Seq<char>, i: int) -> Option<(int, int)> {
    let p = skip_ws(t, i);
    let k = word_end(t, p);
    if k > p {
        Some((p, k))
    } else {
        None
    }
}

/// `t` is a BSL identifier: an identifier-start scalar followed by word scalars.
pub open spec fn is_identifier(t: Seq<char>) -> bool {
    &&& t.len() > 0
    &&& ident_start(t[0])
    &&& forall|i: int| 1 <= i < t.len() ==> word_char(#[trigger] t[i])
}

/// `t` has the two-scalar comment opener `//` at index `i`.
pub open spec fn comment_at(t: Seq<char>, i: int) -> bool {
    0 <= i && i + 1 < t.len() && t[i] == '/' && t[i + 1] == '/'
}

/// `t` is empty or starts with a line comment.
pub open spec fn empty_or_comment(t: Seq<char>) -> bool {
    t.len() == 0 || comment_at(t, 0)
}

/// End of the part of `t` that precedes a line comment outside string literals,
/// scanning from `i` with `in_string` telling whether a literal is open there.
pub open spec fn visible_end(t: Seq<char>, i: int, in_string: bool) -> int
    decreases t.len() - i,
{
    if i < 0 || i >= t.len() {
        t.len() as int
    } else if t[i] == '"' {
        if in_string && i + 1 < t.len() && t[i + 1] == '"' {
            visible_end(t, i + 2, in_string)
        } else {
            visible_end(t, i + 1, !in_string)
        }
    } else if !in_string && comment_at(t, i) {
        i
    } else {
        visible_end(t, i + 1, in_string)
    }
}

/// Pieces of `t` separated by `delimiter` outside string literals and parentheses.
pub open spec fn split_scan(
    t: Seq<char>,
    delimiter: char,
    i: int,
    start: int,
    depth: int,
    in_string: bool,
) -> Seq<(int, int)>
    decreases t.len() - i,
{
    if i < 0 || i >= t.len() {
        seq![(start, t.len() as int)]
    } else if t[i] == '"' {
        if in_string && i + 1 < t.len() && t[i + 1] == '"' {
            split_scan(t, delimiter, i + 2, start, depth, in_string)
        } else {
            split_scan(t, delimiter, i + 1, start, depth, !in_string)
        }
    } else if !in_string && t[i] == '(' {
        split_scan(t, delimiter, i + 1, start, depth + 1, in_string)
    } else if !in_string && t[i] == ')' {
        split_scan(t, delimiter, i + 1, start, if depth > 0 { depth - 1 } else { 0 }, in_string)
    } else if !in_string && depth == 0 && t[i] == delimiter {
        seq![(start, i)] + split_scan(t, delimiter, i + 1, i + 1, depth, in_string)
    } else {
        split_scan(t, delimiter, i + 1, start, depth, in_string)
    }
}

/// Top-level pieces of `t` around `delimiter`.
pub open spec fn split_top_level(t: Seq<char>, delimiter: char) -> Seq<(int, int)> {
    split_scan(t, delimiter, 0, 0, 0, false)
}

/// Pieces of `t` around every occurrence of `delimiter` (`str::split`).
pub open spec fn split_plain_scan(t: Seq<char>, delimiter: char, i: int, start: int) -> Seq<
    (int, int),
>
    decreases t.len() - i,
{
    if i < 0 || i >= t.len() {
        seq![(start, t.len() as int)]
    } else if t[i] == delimiter {
        seq![(start, i)] + split_plain_scan(t, delimiter, i + 1, i + 1)
    } else {
        split_plain_scan(t, delimiter, i + 1, start)
    }
}

/// Pieces of `t` around every occurrence of `delimiter`.
pub open spec fn split_plain(t: Seq<char>, delimiter: char) -> Seq<(int, int)> {
    split_plain_scan(t, delimiter, 0, 0)
}

/// Whitespace-separated words of `t` (`str::split_whitespace`), scanning from `i`;
/// `start` is the beginning of the word in progress, or `-1` between words.
pub open spec fn words_scan(t: Seq<char>, i: int, start: int) -> Seq<(int, int)>
    decreases t.len() - i,
{
    if i < 0 || i >= t.len() {
        if start >= 0 {
            seq![(start, t.len() as int)]
        } else {
            Seq::empty()
        }
    } else if unicode_whitespace(t[i]) {
        if start >= 0 {
            seq![(start, i)] + words_scan(t, i + 1, -1)
        } else {
            words_scan(t, i + 1, -1)
        }
    } else {
        words_scan(t, i + 1, if start >= 0 { start } else { i })
    }
}

/// Whitespace-separated words of `t`.
pub open spec fn words(t: Seq<char>) -> Seq<(int, int)> {
    words_scan(t, 0, -1)
}

/// The scalar ranges of `s` converted to integer pairs.
pub open spec fn spans(s: Seq<(usize, usize)>) -> Seq<(int, int)> {
    s.map_values(|p: (usize, usize)| (p.0 as int, p.1 as int))
}

/// The text covered by a scalar range of `t`.
pub open spec fn piece(t: Seq<char>, span: (int, int)) -> Seq<char> {
    t.subrange(span.0, span.1)
}

pub proof fn lemma_word_end_bounds(t: Seq<char>, i: int)
    requires
        0 <= i <= t.len(),
    ensures
        i <= word_end(t, i) <= t.len(),
        forall|j: int| i <= j < word_end(t, i) ==> word_char(#[trigger] t[j]),
        word_end(t, i) < t.len() ==> !word_char(t[word_end(t, i)]),
    decreases t.len() - i,
{
    if i < t.len() && word_char(t[i]) {
        lemma_word_end_bounds(t, i + 1);
    }
}

/// Returns `word_end(t, i)`.
pub fn find_word_end(t: &[char], i: usize) -> (r: usize)
    requires
        i <= t@.len(),
    ensures
        r as int == word_end(t@, i as int),
{
    let mut k = i;
    while k < t.len() && (t[k] == '_' || is_alphanumeric(t[k]))
        invariant
            i <= k <= t@.len(),
            word_end(t@, k as int) == word_end(t@, i as int),
        decreases t@.len() - k,
    {
        k = k + 1;
    }
    k
}

/// Returns `token_from(t, i)`: the scalar range of the first word at or after `i`.
pub fn token_at(t: &[char], i: usize) -> (r: Option<(usize, usize)>)
    requires
        i <= t@.len(),
    ensures
        r is None <==> token_from(t@, i as int) is None,
        r matches Some((a, b)) ==> token_from(t@, i as int) == Some((a as int, b as int)),
        r matches Some((a, b)) ==> i <= a < b <= t@.len(),
{
    let p = skip_whitespace(t, i);
    let k = find_word_end(t, p);
    proof {
        lemma_word_end_bounds(t@, p as int);
    }
    if k > p {
        Some((p, k))
    } else {
        None
    }
}

/// Returns whether `t[from..to]` is a BSL identifier.
pub fn is_identifier_range(t: &[char], from: usize, to: usize) -> (r: bool)
    requires
        from <= to <= t@.len(),
    ensures
        r == is_identifier(t@.subrange(from as int, to as int)),
{
    let ghost u = t@.subrange(from as int, to as int);
    if from == to {
        return false;
    }
    let first = t[from];
    if !(first == '_' || is_alphabetic(first)) {
        return false;
    }
    let mut k = from + 1;
    while k < to
        invariant
            from < k <= to <= t@.len(),
            u == t@.subrange(from as int, to as int),
            ident_start(u[0]),
            forall|j: int| 1 <= j < k - from ==> word_char(#[trigger] u[j]),
        decreases to - k,
    {
        if !(t[k] == '_' || is_alphanumeric(t[k])) {
            assert(!word_char(u[k - from]));
            return false;
        }
        k = k + 1;
    }
    true
}

/// Returns `visible_end(t, 0, false)`: where a line comment outside literals begins.
pub fn find_visible_end(t: &[char]) -> (r: usize)
    ensures
        r as int == visible_end(t@, 0, false),
        r <= t@.len(),
{
    let mut in_string = false;
    let mut i: usize = 0;
    while i < t.len()
        invariant
            i <= t@.len(),
            visible_end(t@, i as int, in_string) == visible_end(t@, 0, false),
        decreases t@.len() - i,
    {
        if t[i] == '"' {
            if in_string && i + 1 < t.len() && t[i + 1] == '"' {
                i = i + 2;
                continue;
            }
            in_string = !in_string;
        } else if !in_string && i + 1 < t.len() && t[i] == '/' && t[i + 1] == '/' {
            return i;
        }
        i = i + 1;
    }
    i
}

/// Returns `split_top_level(t, delimiter)`.
pub fn split_top_level_of(t: &[char], delimiter: char) -> (r: Vec<(usize, usize)>)
    ensures
        spans(r@) == split_top_level(t@, delimiter),
        forall|j: int| 0 <= j < r@.len() ==> (#[trigger] r@[j]).0 <= r@[j].1 <= t@.len(),
{
    let mut out: Vec<(usize, usize)> = Vec::new();
    let mut start: usize = 0;
    let mut depth: usize = 0;
    let mut in_string = false;
    let mut i: usize = 0;
    while i < t.len()
        invariant
            start <= i <= t@.len(),
            depth <= i,
            spans(out@) + split_scan(t@, delimiter, i as int, start as int, depth as int, in_string)
                == split_top_level(t@, delimiter),
            forall|j: int| 0 <= j < out@.len() ==> (#[trigger] out@[j]).0 <= out@[j].1 <= t@.len(),
        decreases t@.len() - i,
    {
        let c = t[i];
        if c == '"' {
            if in_string && i + 1 < t.len() && t[i + 1] == '"' {
                i = i + 2;
                continue;
            }
            in_string = !in_string;
        } else if !in_string && c == '(' {
            depth = depth + 1;
        } else if !in_string && c == ')' {
            if depth > 0 {
                depth = depth - 1;
            }
        } else if !in_string && depth == 0 && c == delimiter {
            let ghost before = out@;
            out.push((start, i));
            proof {
                assert(spans(out@) == spans(before) + seq![(start as int, i as int)]);
            }
            start = i + 1;
        }
        i = i + 1;
    }
    proof {
        assert(spans(out@) + seq![(start as int, t@.len() as int)] == spans(
            out@.push((start, t.len())),
        ));
    }
    out.push((start, t.len()));
    out
}

/// Returns `split_plain(t, delimiter)`.
pub fn split_plain_of(t: &[char], delimiter: char) -> (r: Vec<(usize, usize)>)
    ensures
        spans(r@) == split_plain(t@, delimiter),
        forall|j: int| 0 <= j < r@.len() ==> (#[trigger] r@[j]).0 <= r@[j].1 <= t@.len(),
{
    let mut out: Vec<(usize, usize)> = Vec::new();
    let mut start: usize = 0;
    let mut i: usize = 0;
    while i < t.len()
        invariant
            start <= i <= t@.len(),
            spans(out@) + split_plain_scan(t@, delimiter, i as int, start as int) == split_plain(
                t@,
                delimiter,
            ),
            forall|j: int| 0 <= j < out@.len() ==> (#[trigger] out@[j]).0 <= out@[j].1 <= t@.len(),
        decreases t@.len() - i,
    {
        if t[i] == delimiter {
            let ghost before = out@;
            out.push((start, i));
            proof {
                assert(spans(out@) == spans(before) + seq![(start as int, i as int)]);
            }
            start = i + 1;
        }
        i = i + 1;
    }
    proof {
        assert(spans(out@) + seq![(start as int, t@.len() as int)] == spans(
            out@.push((start, t.len())),
        ));
    }
    out.push((start, t.len()));
    out
}

/// Returns `words(t)`.
pub fn words_of(t: &[char]) -> (r: Vec<(usize, usize)>)
    ensures
        spans(r@) == words(t@),
        forall|j: int| 0 <= j < r@.len() ==> (#[trigger] r@[j]).0 < r@[j].1 <= t@.len(),
{
    let mut out: Vec<(usize, usize)> = Vec::new();
    let mut in_word = false;
    let mut start: usize = 0;
    let mut i: usize = 0;
    while i < t.len()
        invariant
            i <= t@.len(),
            in_word ==> start < i,
            spans(out@) + words_scan(t@, i as int, if in_word { start as int } else { -1 })
                == words(t@),
            forall|j: int| 0 <= j < out@.len() ==> (#[trigger] out@[j]).0 < out@[j].1 <= t@.len(),
        decreases t@.len() - i,
    {
        if is_whitespace(t[i]) {
            if in_word {
                let ghost before = out@;
                out.push((start, i));
                proof {
                    assert(spans(out@) == spans(before) + seq![(start as int, i as int)]);
                }
                in_word = false;
            }
        } else if !in_word {
            in_word = true;
            start = i;
        }
        i = i + 1;
    }
    if in_word {
        proof {
            assert(spans(out@) + seq![(start as int, t@.len() as int)] == spans(
                out@.push((start, t.len())),
            ));
        }
        out.push((start, t.len()));
    } else {
        assert(spans(out@) + Seq::<(int, int)>::empty() == spans(out@));
    }
    out
}

/// Copies `t[from..to]` into a new vector.
pub fn slice_chars(t: &[char], from: usize, to: usize) -> (r: Vec<char>)
    requires
        from <= to <= t@.len(),
    ensures
        r@ == t@.subrange(from as int, to as int),
{
    let mut out: Vec<char> = Vec::new();
    let mut i = from;
    while i < to
        invariant
            from <= i <= to <= t@.len(),
            out@ == t@.subrange(from as int, i as int),
        decreases to - i,
    {
        out.push(t[i]);
        i = i + 1;
    }
    out
}

/// Returns whether `t[i]` exists and equals `c`.
pub fn char_at_is(t: &[char], i: usize, c: char) -> (r: bool)
    ensures
        r == (i < t@.len() && t@[i as int] == c),
{
    i < t.len() && t[i] == c
}

} // verus!
