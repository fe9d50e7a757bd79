//! Line-oriented extraction of top-level BSL procedure and function scopes.
//!
//! A module is split into physical lines (`\n`, `\r\n` or a lone `\r` ends a
//! line). A scope starts at a line whose first token (after an optional
//! `Async`/`Асинх`) is `Procedure`/`Процедура` or `Function`/`Функция`, has a
//! header whose parentheses balance outside string literals, and ends at the
//! matching `EndProcedure`/`КонецПроцедуры` or `EndFunction`/`КонецФункции`.
//! Parameter names and local bindings of each scope, and the module-level
//! bindings outside all scopes, are collected as lowercase keys.

use vstd::prelude::*;

use crate::bsl::lexical::{
    split_scan, visible_end, char_at_is, comment_at, find_visible_end, find_word_end, is_identifier, is_identifier_range,
    lemma_word_end_bounds, piece, slice_chars, spans, split_plain, split_plain_of,
    split_top_level, split_top_level_of, token_at, token_from, word_end, words, words_of,
};
use crate::bsl::{
    bsl_callable_id, bsl_name_key, bsl_names_equal, callable_id_text, lowercase, names_equal,
    BslIdentifierRange, BslParseError, BslSymbol, BslSymbolKind, ParseErrorView, SymbolView,
};
use crate::entity::{EntityId, EntityName};
use crate::text::{
    all_ws, byte_at, byte_offsets, chars_of, utf8_len, lemma_skip_ws_bounds, skip_whitespace, skip_ws, string_of_range, trim,
    trim_range,
    unicode_whitespace,
};

verus! {

// ---------------------------------------------------------------- lines

/// A scalar that ends a physical line.
pub open spec fn is_break(c: char) -> bool {
    c == '\r' || c == '\n'
}

/// End of the line content that starts at `i`.
pub open spec fn line_end(s: Seq<char>, i: int) -> int
    decreases s.len() - i,
{
    if 0 <= i < s.len() && !is_break(s[i]) {
        line_end(s, i + 1)
    } else {
        i
    }
}

/// Start of the next line after a line whose content ends at `e`.
pub open spec fn next_line_start(s: Seq<char>, e: int) -> int {
    if e + 1 < s.len() && s[e] == '\r' && s[e + 1] == '\n' {
        e + 2
    } else {
        e + 1
    }
}

pub proof fn lemma_line_end_bounds(s: Seq<char>, i: int)
    requires
        0 <= i <= s.len(),
    ensures
        i <= line_end(s, i) <= s.len(),
        line_end(s, i) < s.len() ==> is_break(s[line_end(s, i)]),
        forall|j: int| i <= j < line_end(s, i) ==> !is_break(#[trigger] s[j]),
    decreases s.len() - i,
{
    if i < s.len() && !is_break(s[i]) {
        lemma_line_end_bounds(s, i + 1);
    }
}

/// Content ranges of the physical lines of `s` from scalar index `i` on.
pub open spec fn lines_from(s: Seq<char>, i: int) -> Seq<(int, int)>
    decreases s.len() - i,
{
    if i < 0 || i >= s.len() {
        Seq::empty()
    } else {
        let e = line_end(s, i);
        proof {
            lemma_line_end_bounds(s, i);
        }
        if e >= s.len() {
            seq![(i, e)]
        } else {
            seq![(i, e)] + lines_from(s, next_line_start(s, e))
        }
    }
}

/// Content ranges of the physical lines of `s`; line `k` has number `k + 1`.
pub open spec fn source_lines(s: Seq<char>) -> Seq<(int, int)> {
    lines_from(s, 0)
}

/// Returns `source_lines(s)`.
pub fn line_spans(s: &[char]) -> (r: Vec<(usize, usize)>)
    ensures
        spans(r@) == source_lines(s@),
        forall|k: int| 0 <= k < r@.len() ==> (#[trigger] r@[k]).0 <= r@[k].1 <= s@.len(),
        r@.len() <= s@.len(),
{
    let mut out: Vec<(usize, usize)> = Vec::new();
    let mut start: usize = 0;
    while start < s.len()
        invariant
            start <= s@.len(),
            out@.len() <= start,
            spans(out@) + lines_from(s@, start as int) == source_lines(s@),
            forall|k: int| 0 <= k < out@.len() ==> (#[trigger] out@[k]).0 <= out@[k].1 <= s@.len(),
        decreases s@.len() - start,
    {
        let mut end = start;
        while end < s.len() && !(s[end] == '\r' || s[end] == '\n')
            invariant
                start <= end <= s@.len(),
                line_end(s@, end as int) == line_end(s@, start as int),
            decreases s@.len() - end,
        {
            end = end + 1;
        }
        let ghost before = out@;
        out.push((start, end));
        assert(spans(out@) == spans(before) + seq![(start as int, end as int)]);
        if end == s.len() {
            start = s.len();
        } else if s[end] == '\r' && end + 1 < s.len() && s[end + 1] == '\n' {
            start = end + 2;
        } else {
            start = end + 1;
        }
    }
    out
}

/// First scalar of the text of line `k`: the line start, past a byte-order
/// mark on the first line.
pub open spec fn text_start(s: Seq<char>, lines: Seq<(int, int)>, k: int) -> int {
    if k == 0 && lines[0].0 < lines[0].1 && s[lines[0].0] == '\u{feff}' {
        lines[0].0 + 1
    } else {
        lines[k].0
    }
}

/// Text of line `k` without a leading byte-order mark on the first line.
pub open spec fn line_text(s: Seq<char>, lines: Seq<(int, int)>, k: int) -> Seq<char> {
    s.subrange(text_start(s, lines, k), lines[k].1)
}

// ---------------------------------------------------------------- keywords

/// The word `x[tok]` equals one of two keywords, ignoring case.
pub open spec fn token_is(x: Seq<char>, tok: (int, int), a: Seq<char>, b: Seq<char>) -> bool {
    names_equal(x.subrange(tok.0, tok.1), a) || names_equal(x.subrange(tok.0, tok.1), b)
}

/// Range of the declaration keyword of a header starting at `i`, past an
/// optional `Async`/`Асинх` modifier.
pub open spec fn header_keyword(x: Seq<char>, i: int) -> Option<(int, int)> {
    match token_from(x, i) {
        None => None,
        Some(first) => if !token_is(x, first, "async"@, "асинх"@) {
            Some(first)
        } else {
            token_from(x, first.1)
        },
    }
}

/// Kind of the declaration that starts at `i`, if any.
pub open spec fn start_kind(x: Seq<char>, i: int) -> Option<BslSymbolKind> {
    match header_keyword(x, i) {
        None => None,
        Some(k) => if token_is(x, k, "procedure"@, "процедура"@) {
            Some(BslSymbolKind::Procedure)
        } else if token_is(x, k, "function"@, "функция"@) {
            Some(BslSymbolKind::Function)
        } else {
            None
        },
    }
}

/// Kind of the scope end that starts at `i`, if any.
pub open spec fn end_kind(x: Seq<char>, i: int) -> Option<BslSymbolKind> {
    match token_from(x, i) {
        None => None,
        Some(k) => if token_is(x, k, "endprocedure"@, "конецпроцедуры"@) {
            Some(BslSymbolKind::Procedure)
        } else if token_is(x, k, "endfunction"@, "конецфункции"@) {
            Some(BslSymbolKind::Function)
        } else {
            None
        },
    }
}

/// After the end keyword at `i` there is nothing, a comment, or `;` followed
/// by nothing or a comment.
pub open spec fn valid_end_tail(x: Seq<char>, i: int) -> bool {
    match token_from(x, i) {
        None => false,
        Some(k) => {
            let p = skip_ws(x, k.1);
            ||| p >= x.len()
            ||| comment_at(x, p)
            ||| (x[p] == ';' && {
                let q = skip_ws(x, p + 1);
                q >= x.len() || comment_at(x, q)
            })
        },
    }
}

/// A line whose text from `p` on is a comment or a preprocessor instruction.
pub open spec fn directive_at(x: Seq<char>, p: int) -> bool {
    comment_at(x, p) || (0 <= p < x.len() && x[p] == '#')
}

/// Returns `token_is(x, tok, a, b)`.
fn token_matches(x: &[char], tok: (usize, usize), a: &str, b: &str) -> (r: bool)
    requires
        tok.0 <= tok.1 <= x@.len(),
    ensures
        r == token_is(x@, (tok.0 as int, tok.1 as int), a@, b@),
{
    let word = string_of_range(x, tok.0, tok.1);
    bsl_names_equal(word.as_str(), a) || bsl_names_equal(word.as_str(), b)
}

/// Returns `header_keyword(x, i)`.
fn header_keyword_at(x: &[char], i: usize) -> (r: Option<(usize, usize)>)
    requires
        i <= x@.len(),
    ensures
        r is None <==> header_keyword(x@, i as int) is None,
        r matches Some((a, b)) ==> header_keyword(x@, i as int) == Some((a as int, b as int)),
        r matches Some((a, b)) ==> i <= a < b <= x@.len(),
{
    match token_at(x, i) {
        None => None,
        Some(first) => {
            if !token_matches(x, first, "async", "асинх") {
                Some(first)
            } else {
                token_at(x, first.1)
            }
        },
    }
}

/// Returns `start_kind(x, i)`.
fn start_kind_at(x: &[char], i: usize) -> (r: Option<BslSymbolKind>)
    requires
        i <= x@.len(),
    ensures
        r == start_kind(x@, i as int),
{
    match header_keyword_at(x, i) {
        None => None,
        Some(k) => {
            if token_matches(x, k, "procedure", "процедура") {
                Some(BslSymbolKind::Procedure)
            } else if token_matches(x, k, "function", "функция") {
                Some(BslSymbolKind::Function)
            } else {
                None
            }
        },
    }
}

/// Returns `end_kind(x, i)`.
fn end_kind_at(x: &[char], i: usize) -> (r: Option<BslSymbolKind>)
    requires
        i <= x@.len(),
    ensures
        r == end_kind(x@, i as int),
{
    match token_at(x, i) {
        None => None,
        Some(k) => {
            if token_matches(x, k, "endprocedure", "конецпроцедуры") {
                Some(BslSymbolKind::Procedure)
            } else if token_matches(x, k, "endfunction", "конецфункции") {
                Some(BslSymbolKind::Function)
            } else {
                None
            }
        },
    }
}

/// Returns `comment_at(x, p)`.
fn comment_starts(x: &[char], p: usize) -> (r: bool)
    ensures
        r == comment_at(x@, p as int),
{
    p < x.len() && p + 1 < x.len() && x[p] == '/' && x[p + 1] == '/'
}

/// Returns `valid_end_tail(x, i)`.
fn valid_end_tail_at(x: &[char], i: usize) -> (r: bool)
    requires
        i <= x@.len(),
    ensures
        r == valid_end_tail(x@, i as int),
{
    match token_at(x, i) {
        None => false,
        Some(k) => {
            let p = skip_whitespace(x, k.1);
            if p >= x.len() || comment_starts(x, p) {
                true
            } else if x[p] == ';' {
                let q = skip_whitespace(x, p + 1);
                q >= x.len() || comment_starts(x, q)
            } else {
                false
            }
        },
    }
}

/// Returns `directive_at(x, p)`.
pub(crate) fn directive_starts(x: &[char], p: usize) -> (r: bool)
    ensures
        r == directive_at(x@, p as int),
{
    comment_starts(x, p) || char_at_is(x, p, '#')
}

// ---------------------------------------------------------------- header tail

/// Export flag of the text after a header's closing parenthesis at `i`:
/// `Some(false)` for nothing or a comment, `Some(true)` for a lone
/// `Export`/`Экспорт` (optionally followed by a comment), `None` otherwise.
pub open spec fn export_tail(x: Seq<char>, i: int) -> Option<bool> {
    let p = skip_ws(x, i);
    if p >= x.len() || comment_at(x, p) {
        Some(false)
    } else {
        match token_from(x, p) {
            None => None,
            Some(t) => if !token_is(x, t, "export"@, "экспорт"@) {
                None
            } else {
                let q = skip_ws(x, t.1);
                if q >= x.len() || comment_at(x, q) {
                    Some(true)
                } else {
                    None
                }
            },
        }
    }
}

/// The declaration error for a malformed line.
pub open spec fn malformed(line: int, text: Seq<char>) -> ParseErrorView {
    ParseErrorView::Malformed { line, text }
}

/// Outcome of scanning a header for its balanced parameter list, from scalar
/// `ci` of line `k` with parenthesis depth `depth`: the index of the line that
/// closes the list, the parameter text (lines joined by `\n`, doubled quotes
/// kept doubled, comments dropped) and the export flag.
pub open spec fn tail_scan(
    s: Seq<char>,
    lines: Seq<(int, int)>,
    k: int,
    ci: int,
    depth: int,
    in_string: bool,
    acc: Seq<char>,
    declaration_line: int,
    first_trimmed: Seq<char>,
) -> Result<(int, Seq<char>, bool), ParseErrorView>
    decreases lines.len() - k, line_text(s, lines, k).len() - ci,
{
    if k < 0 || k >= lines.len() {
        Err(malformed(declaration_line, first_trimmed))
    } else {
        let x = line_text(s, lines, k);
        let next_acc = if depth > 0 { acc.push('\n') } else { acc };
        if ci < 0 || ci >= x.len() {
            tail_scan(s, lines, k + 1, 0, depth, in_string, next_acc, declaration_line, first_trimmed)
        } else if x[ci] == '"' {
            if in_string && ci + 1 < x.len() && x[ci + 1] == '"' {
                tail_scan(
                    s,
                    lines,
                    k,
                    ci + 2,
                    depth,
                    in_string,
                    if depth > 0 { acc + seq!['"', '"'] } else { acc },
                    declaration_line,
                    first_trimmed,
                )
            } else {
                tail_scan(
                    s,
                    lines,
                    k,
                    ci + 1,
                    depth,
                    !in_string,
                    if depth > 0 { acc.push('"') } else { acc },
                    declaration_line,
                    first_trimmed,
                )
            }
        } else if !in_string && comment_at(x, ci) {
            tail_scan(s, lines, k + 1, 0, depth, in_string, next_acc, declaration_line, first_trimmed)
        } else if !in_string && x[ci] == '(' {
            if depth + 1 > usize::MAX {
                Err(malformed(declaration_line, first_trimmed))
            } else {
                tail_scan(
                    s,
                    lines,
                    k,
                    ci + 1,
                    depth + 1,
                    in_string,
                    if depth + 1 > 1 { acc.push('(') } else { acc },
                    declaration_line,
                    first_trimmed,
                )
            }
        } else if !in_string && x[ci] == ')' {
            if depth <= 0 {
                Err(malformed(k + 1, x))
            } else if depth == 1 {
                match export_tail(x, ci + 1) {
                    None => Err(malformed(k + 1, x)),
                    Some(exported) => Ok((k, acc, exported)),
                }
            } else {
                tail_scan(
                    s,
                    lines,
                    k,
                    ci + 1,
                    depth - 1,
                    in_string,
                    acc.push(')'),
                    declaration_line,
                    first_trimmed,
                )
            }
        } else {
            tail_scan(
                s,
                lines,
                k,
                ci + 1,
                depth,
                in_string,
                if depth > 0 { acc.push(x[ci]) } else { acc },
                declaration_line,
                first_trimmed,
            )
        }
    }
}

/// Lines of a module together with their scalar ranges: the exec form of `source_lines`.
pub open spec fn lines_wf(s: Seq<char>, lines: Seq<(usize, usize)>) -> bool {
    &&& spans(lines) == source_lines(s)
    &&& forall|k: int| 0 <= k < lines.len() ==> (#[trigger] lines[k]).0 <= lines[k].1 <= s.len()
    &&& lines.len() <= s.len()
}

pub proof fn lemma_text_start_bounds(s: Seq<char>, lines: Seq<(usize, usize)>, k: int)
    requires
        lines_wf(s, lines),
        0 <= k < lines.len(),
    ensures
        spans(lines)[k] == (lines[k].0 as int, lines[k].1 as int),
        lines[k].0 <= text_start(s, spans(lines), k) <= lines[k].1,
{
    assert(spans(lines)[k] == (lines[k].0 as int, lines[k].1 as int));
    assert(spans(lines)[0] == (lines[0].0 as int, lines[0].1 as int));
}

/// Returns the text of line `k` as scalars.
pub fn line_text_of(s: &[char], lines: &Vec<(usize, usize)>, k: usize) -> (r: Vec<char>)
    requires
        lines_wf(s@, lines@),
        k < lines@.len(),
    ensures
        r@ == line_text(s@, spans(lines@), k as int),
{
    proof {
        lemma_text_start_bounds(s@, lines@, k as int);
    }
    let (start, end) = lines[k];
    if k == 0 && start < end && s[start] == '\u{feff}' {
        slice_chars(s, start + 1, end)
    } else {
        slice_chars(s, start, end)
    }
}

/// Returns `export_tail(x, i)`.
fn export_tail_at(x: &[char], i: usize) -> (r: Option<bool>)
    requires
        i <= x@.len(),
    ensures
        r == export_tail(x@, i as int),
{
    let p = skip_whitespace(x, i);
    if p >= x.len() || comment_starts(x, p) {
        return Some(false);
    }
    match token_at(x, p) {
        None => None,
        Some(t) => {
            if !token_matches(x, t, "export", "экспорт") {
                None
            } else {
                let q = skip_whitespace(x, t.1);
                if q >= x.len() || comment_starts(x, q) {
                    Some(true)
                } else {
                    None
                }
            }
        },
    }
}

/// Builds the error for a malformed line.
fn malformed_error(line: usize, text: &[char]) -> (r: BslParseError)
    ensures
        r@ == malformed(line as int, text@),
{
    let t = string_of_range(text, 0, text.len());
    assert(text@.subrange(0, text@.len() as int) == text@);
    BslParseError::MalformedDeclaration { line, text: t }
}

/// Returns `tail_scan` from scalar `first_start` of line `start_index`, depth 0,
/// outside a literal, with empty parameter text.
fn scan_header_tail(
    s: &[char],
    lines: &Vec<(usize, usize)>,
    start_index: usize,
    first_start: usize,
    declaration_line: usize,
    first_trimmed: &[char],
) -> (r: Result<(usize, Vec<char>, bool), BslParseError>)
    requires
        lines_wf(s@, lines@),
        start_index < lines@.len(),
    ensures
        match r {
            Ok((k, acc, exported)) => tail_scan(
                s@,
                spans(lines@),
                start_index as int,
                first_start as int,
                0,
                false,
                Seq::empty(),
                declaration_line as int,
                first_trimmed@,
            ) == Ok::<(int, Seq<char>, bool), ParseErrorView>((k as int, acc@, exported)),
            Err(e) => tail_scan(
                s@,
                spans(lines@),
                start_index as int,
                first_start as int,
                0,
                false,
                Seq::empty(),
                declaration_line as int,
                first_trimmed@,
            ) == Err::<(int, Seq<char>, bool), ParseErrorView>(e@),
        },
{
    let ghost l = spans(lines@);
    let ghost target = tail_scan(
        s@,
        l,
        start_index as int,
        first_start as int,
        0,
        false,
        Seq::empty(),
        declaration_line as int,
        first_trimmed@,
    );
    let mut depth: usize = 0;
    let mut in_string = false;
    let mut acc: Vec<char> = Vec::new();
    let mut k = start_index;
    let mut ci = first_start;
    while k < lines.len()
        invariant
            lines_wf(s@, lines@),
            l == spans(lines@),
            k <= lines@.len(),
            target == tail_scan(
                s@,
                l,
                start_index as int,
                first_start as int,
                0,
                false,
                Seq::empty(),
                declaration_line as int,
                first_trimmed@,
            ),
            tail_scan(
                s@,
                l,
                k as int,
                ci as int,
                depth as int,
                in_string,
                acc@,
                declaration_line as int,
                first_trimmed@,
            ) == target,
        decreases lines@.len() - k,
    {
        let x = line_text_of(s, lines, k);
        let line_number = k + 1;
        if ci > x.len() {
            ci = x.len();
        }
        while ci < x.len()
            invariant
                lines_wf(s@, lines@),
                l == spans(lines@),
                k < lines@.len(),
                target == tail_scan(
                    s@,
                    l,
                    start_index as int,
                    first_start as int,
                    0,
                    false,
                    Seq::empty(),
                    declaration_line as int,
                    first_trimmed@,
                ),
                x@ == line_text(s@, l, k as int),
                line_number == k + 1,
                ci <= x@.len(),
                tail_scan(
                    s@,
                    l,
                    k as int,
                    ci as int,
                    depth as int,
                    in_string,
                    acc@,
                    declaration_line as int,
                    first_trimmed@,
                ) == target,
            decreases x@.len() - ci,
        {
            let c = x[ci];
            if c == '"' {
                if in_string && ci + 1 < x.len() && x[ci + 1] == '"' {
                    if depth > 0 {
                        let ghost before = acc@;
                        acc.push('"');
                        acc.push('"');
                        assert(acc@ == before + seq!['"', '"']);
                    }
                    ci = ci + 2;
                    continue;
                }
                in_string = !in_string;
                if depth > 0 {
                    acc.push(c);
                }
                ci = ci + 1;
                continue;
            }
            if !in_string && comment_starts(&x, ci) {
                ci = x.len();
                continue;
            }
            if !in_string && c == '(' {
                if depth == usize::MAX {
                    return Err(malformed_error(declaration_line, first_trimmed));
                }
                depth = depth + 1;
                if depth > 1 {
                    acc.push(c);
                }
            } else if !in_string && c == ')' {
                if depth == 0 {
                    return Err(malformed_error(line_number, &x));
                }
                depth = depth - 1;
                if depth == 0 {
                    match export_tail_at(&x, ci + 1) {
                        None => {
                            return Err(malformed_error(line_number, &x));
                        },
                        Some(exported) => {
                            return Ok((k, acc, exported));
                        },
                    }
                }
                acc.push(c);
            } else if depth > 0 {
                acc.push(c);
            }
            ci = ci + 1;
        }
        if depth > 0 {
            acc.push('\n');
        }
        k = k + 1;
        ci = 0;
    }
    Err(malformed_error(declaration_line, first_trimmed))
}

// ---------------------------------------------------------------- bindings

/// The strings of `v` as scalar sequences.
pub open spec fn key_view(v: Seq<String>) -> Seq<Seq<char>> {
    v.map_values(|k: String| k@)
}

/// The words `ws` of `t` other than `Val`/`Знач`.
pub open spec fn non_val_words(t: Seq<char>, ws: Seq<(int, int)>) -> Seq<(int, int)>
    decreases ws.len(),
{
    if ws.len() == 0 {
        Seq::empty()
    } else {
        let rest = non_val_words(t, ws.drop_last());
        if token_is(t, ws.last(), "val"@, "знач"@) {
            rest
        } else {
            rest.push(ws.last())
        }
    }
}

/// Lowercase key of a parameter declaration: the single identifier before an
/// optional default value, ignoring `Val`; `None` when there is no such identifier.
pub open spec fn parameter_key(pc: Seq<char>) -> Option<Seq<char>> {
    let before = trim(piece(pc, split_top_level(pc, '=')[0]));
    let ws = non_val_words(before, words(before));
    if before.len() == 0 || ws.len() != 1 || !is_identifier(piece(before, ws[0])) {
        None
    } else {
        Some(lowercase(piece(before, ws[0])))
    }
}

/// Parameter keys of the pieces `parts[i..]` of `p`, appended to `keys`;
/// the flag turns false at a piece without a key.
pub open spec fn parameters_from(
    p: Seq<char>,
    parts: Seq<(int, int)>,
    i: int,
    keys: Seq<Seq<char>>,
    complete: bool,
) -> (Seq<Seq<char>>, bool)
    decreases parts.len() - i,
{
    if i < 0 || i >= parts.len() {
        (keys, complete)
    } else {
        match parameter_key(piece(p, parts[i])) {
            None => parameters_from(p, parts, i + 1, keys, false),
            Some(k) => parameters_from(p, parts, i + 1, keys.push(k), complete),
        }
    }
}

/// Keys of the parameters declared by the parameter text `p`, and whether every
/// parameter declared exactly one identifier.
pub open spec fn parameter_bindings(p: Seq<char>) -> (Seq<Seq<char>>, bool) {
    if trim(p).len() == 0 {
        (Seq::empty(), true)
    } else {
        parameters_from(p, split_top_level(p, ','), 0, Seq::empty(), true)
    }
}

/// Name declared by one `Var` item: an identifier optionally followed by `Export`.
pub open spec fn variable_name(c: Seq<char>) -> Option<(int, int)> {
    let ws = words(c);
    if ws.len() == 0 || !is_identifier(piece(c, ws[0])) {
        None
    } else if ws.len() == 1 {
        Some(ws[0])
    } else if ws.len() == 2 && token_is(c, ws[1], "export"@, "экспорт"@) {
        Some(ws[0])
    } else {
        None
    }
}

/// Keys declared by the comma-separated `Var` items `parts[i..]` of `rest`.
pub open spec fn var_bindings_from(
    rest: Seq<char>,
    parts: Seq<(int, int)>,
    i: int,
    keys: Seq<Seq<char>>,
    complete: bool,
) -> (Seq<Seq<char>>, bool)
    decreases parts.len() - i,
{
    if i < 0 || i >= parts.len() {
        (keys, complete)
    } else {
        let c = trim(piece(rest, parts[i]));
        match variable_name(c) {
            None => var_bindings_from(rest, parts, i + 1, keys, false),
            Some(w) => var_bindings_from(rest, parts, i + 1, keys.push(lowercase(piece(c, w))), complete),
        }
    }
}

/// Loop variable of a `For`/`Для` statement whose keyword ends at `i`,
/// past an optional `Each`/`Каждого`.
pub open spec fn loop_variable(st: Seq<char>, i: int) -> Option<(int, int)> {
    match token_from(st, i) {
        None => None,
        Some(t) => if token_is(st, t, "each"@, "каждого"@) {
            token_from(st, t.1)
        } else {
            Some(t)
        },
    }
}

/// Keys bound by one statement (`Var` items, `Name =` assignments, `For` loop
/// variables), appended to `keys`; the flag turns false at an unreadable binding.
pub open spec fn statement_bindings(st: Seq<char>, keys: Seq<Seq<char>>, complete: bool) -> (
    Seq<Seq<char>>,
    bool,
) {
    match token_from(st, 0) {
        None => (keys, complete),
        Some(first) => if token_is(st, first, "var"@, "перем"@) {
            let rest = st.skip(first.1);
            var_bindings_from(rest, split_plain(rest, ','), 0, keys, complete)
        } else if is_identifier(piece(st, first)) && ({
            let q = skip_ws(st, first.1);
            q < st.len() && st[q] == '='
        }) {
            (keys.push(lowercase(piece(st, first))), complete)
        } else if token_is(st, first, "for"@, "для"@) {
            match loop_variable(st, first.1) {
                Some(c) => if is_identifier(piece(st, c)) {
                    (keys.push(lowercase(piece(st, c))), complete)
                } else {
                    (keys, false)
                },
                None => (keys, false),
            }
        } else {
            (keys, complete)
        },
    }
}

/// Keys bound by the statements `parts[i..]` of `vis`.
pub open spec fn statements_from(
    vis: Seq<char>,
    parts: Seq<(int, int)>,
    i: int,
    keys: Seq<Seq<char>>,
    complete: bool,
) -> (Seq<Seq<char>>, bool)
    decreases parts.len() - i,
{
    if i < 0 || i >= parts.len() {
        (keys, complete)
    } else {
        let r = statement_bindings(piece(vis, parts[i]), keys, complete);
        statements_from(vis, parts, i + 1, r.0, r.1)
    }
}

/// Keys bound by the `;`-separated statements of line `x` before its comment,
/// appended to `keys`.
pub open spec fn line_bindings(x: Seq<char>, keys: Seq<Seq<char>>, complete: bool) -> (
    Seq<Seq<char>>,
    bool,
) {
    let vis = x.take(visible_end(x, 0, false));
    statements_from(vis, split_plain(vis, ';'), 0, keys, complete)
}

pub proof fn lemma_split_scan_non_empty(
    t: Seq<char>,
    d: char,
    i: int,
    start: int,
    depth: int,
    in_string: bool,
)
    ensures
        split_scan(t, d, i, start, depth, in_string).len() > 0,
    decreases t.len() - i,
{
    if i < 0 || i >= t.len() {
    } else if t[i] == '"' {
        if in_string && i + 1 < t.len() && t[i + 1] == '"' {
            lemma_split_scan_non_empty(t, d, i + 2, start, depth, in_string);
        } else {
            lemma_split_scan_non_empty(t, d, i + 1, start, depth, !in_string);
        }
    } else if !in_string && t[i] == '(' {
        lemma_split_scan_non_empty(t, d, i + 1, start, depth + 1, in_string);
    } else if !in_string && t[i] == ')' {
        lemma_split_scan_non_empty(
            t,
            d,
            i + 1,
            start,
            if depth > 0 { depth - 1 } else { 0 },
            in_string,
        );
    } else if !in_string && depth == 0 && t[i] == d {
        lemma_split_scan_non_empty(t, d, i + 1, i + 1, depth, in_string);
    } else {
        lemma_split_scan_non_empty(t, d, i + 1, start, depth, in_string);
    }
}

/// Appends `lowercase(t[a..b])` to `keys`.
fn push_key(keys: &mut Vec<String>, t: &[char], a: usize, b: usize)
    requires
        a <= b <= t@.len(),
    ensures
        key_view(final(keys)@) == key_view(old(keys)@).push(lowercase(t@.subrange(a as int, b as int))),
{
    let word = string_of_range(t, a, b);
    let key = bsl_name_key(word.as_str());
    let ghost before = old(keys)@;
    keys.push(key);
    assert(key_view(keys@) == key_view(before).push(lowercase(t@.subrange(a as int, b as int))));
}

/// Returns `non_val_words(t, ws)`.
fn non_val_words_of(t: &[char], ws: &Vec<(usize, usize)>) -> (r: Vec<(usize, usize)>)
    requires
        forall|j: int| 0 <= j < ws@.len() ==> (#[trigger] ws@[j]).0 <= ws@[j].1 <= t@.len(),
    ensures
        spans(r@) == non_val_words(t@, spans(ws@)),
        forall|j: int| 0 <= j < r@.len() ==> (#[trigger] r@[j]).0 <= r@[j].1 <= t@.len(),
{
    let mut out: Vec<(usize, usize)> = Vec::new();
    let mut i: usize = 0;
    while i < ws.len()
        invariant
            i <= ws@.len(),
            forall|j: int| 0 <= j < ws@.len() ==> (#[trigger] ws@[j]).0 <= ws@[j].1 <= t@.len(),
            spans(out@) == non_val_words(t@, spans(ws@).take(i as int)),
            forall|j: int| 0 <= j < out@.len() ==> (#[trigger] out@[j]).0 <= out@[j].1 <= t@.len(),
        decreases ws@.len() - i,
    {
        let w = ws[i];
        assert(spans(ws@).take(i + 1).drop_last() == spans(ws@).take(i as int));
        assert(spans(ws@).take(i + 1).last() == (w.0 as int, w.1 as int));
        if !token_matches(t, w, "val", "знач") {
            let ghost before = out@;
            out.push(w);
            assert(spans(out@) == spans(before).push((w.0 as int, w.1 as int)));
        }
        i = i + 1;
    }
    assert(spans(ws@).take(ws@.len() as int) == spans(ws@));
    out
}

/// Returns `parameter_key(pc)`.
fn parameter_key_of(pc: &[char]) -> (r: Option<String>)
    ensures
        r is None <==> parameter_key(pc@) is None,
        r matches Some(k) ==> parameter_key(pc@) == Some(k@),
{
    let eqs = split_top_level_of(pc, '=');
    proof {
        lemma_split_scan_non_empty(pc@, '=', 0, 0, 0, false);
    }
    let first = eqs[0];
    assert(spans(eqs@)[0] == (first.0 as int, first.1 as int));
    let head = slice_chars(pc, first.0, first.1);
    let (ta, tb) = trim_range(&head);
    let before = slice_chars(&head, ta, tb);
    if before.len() == 0 {
        return None;
    }
    let ws = words_of(&before);
    let kept = non_val_words_of(&before, &ws);
    if kept.len() != 1 {
        return None;
    }
    let w = kept[0];
    assert(spans(kept@)[0] == (w.0 as int, w.1 as int));
    if !is_identifier_range(&before, w.0, w.1) {
        return None;
    }
    let word = string_of_range(&before, w.0, w.1);
    Some(bsl_name_key(word.as_str()))
}

/// Appends the keys of `parameter_bindings(p)` to an empty list and returns the flag.
fn parameter_bindings_of(p: &[char], keys: &mut Vec<String>) -> (r: bool)
    requires
        old(keys)@.len() == 0,
    ensures
        (key_view(final(keys)@), r) == parameter_bindings(p@),
{
    let (ta, tb) = trim_range(p);
    if ta == tb {
        assert(key_view(keys@) == Seq::<Seq<char>>::empty());
        return true;
    }
    let parts = split_top_level_of(p, ',');
    let mut complete = true;
    let mut i: usize = 0;
    assert(key_view(keys@) == Seq::<Seq<char>>::empty());
    while i < parts.len()
        invariant
            i <= parts@.len(),
            trim(p@).len() != 0,
            spans(parts@) == split_top_level(p@, ','),
            forall|j: int| 0 <= j < parts@.len() ==> (#[trigger] parts@[j]).0 <= parts@[j].1 <= p@.len(),
            parameters_from(p@, spans(parts@), i as int, key_view(keys@), complete)
                == parameter_bindings(p@),
        decreases parts@.len() - i,
    {
        let part = parts[i];
        assert(spans(parts@)[i as int] == (part.0 as int, part.1 as int));
        let pc = slice_chars(p, part.0, part.1);
        match parameter_key_of(&pc) {
            None => {
                complete = false;
            },
            Some(k) => {
                let ghost before = keys@;
                keys.push(k);
                assert(key_view(keys@) == key_view(before).push(k@));
            },
        }
        i = i + 1;
    }
    complete
}

/// Returns `variable_name(c)`.
fn variable_name_of(c: &[char]) -> (r: Option<(usize, usize)>)
    ensures
        r is None <==> variable_name(c@) is None,
        r matches Some((a, b)) ==> variable_name(c@) == Some((a as int, b as int)) && a <= b
            <= c@.len(),
{
    let ws = words_of(c);
    if ws.len() == 0 {
        return None;
    }
    let w0 = ws[0];
    assert(spans(ws@)[0] == (w0.0 as int, w0.1 as int));
    if !is_identifier_range(c, w0.0, w0.1) {
        return None;
    }
    if ws.len() == 1 {
        return Some(w0);
    }
    if ws.len() == 2 {
        let w1 = ws[1];
        assert(spans(ws@)[1] == (w1.0 as int, w1.1 as int));
        if token_matches(c, w1, "export", "экспорт") {
            return Some(w0);
        }
    }
    None
}

/// Appends the keys of `statement_bindings(st, ..)` and returns the new flag.
fn statement_bindings_of(st: &[char], keys: &mut Vec<String>, complete: bool) -> (r: bool)
    ensures
        (key_view(final(keys)@), r) == statement_bindings(st@, key_view(old(keys)@), complete),
{
    let first = match token_at(st, 0) {
        None => {
            return complete;
        },
        Some(t) => t,
    };
    if token_matches(st, first, "var", "перем") {
        let rest = slice_chars(st, first.1, st.len());
        assert(rest@ == st@.skip(first.1 as int));
        let parts = split_plain_of(&rest, ',');
        let mut c = complete;
        let mut i: usize = 0;
        while i < parts.len()
            invariant
                i <= parts@.len(),
                spans(parts@) == split_plain(rest@, ','),
                forall|j: int| 0 <= j < parts@.len() ==> (#[trigger] parts@[j]).0 <= parts@[j].1 <= rest@.len(),
                var_bindings_from(rest@, spans(parts@), i as int, key_view(keys@), c)
                    == var_bindings_from(rest@, split_plain(rest@, ','), 0, key_view(old(keys)@), complete),
            decreases parts@.len() - i,
        {
            let part = parts[i];
            assert(spans(parts@)[i as int] == (part.0 as int, part.1 as int));
            let raw = slice_chars(&rest, part.0, part.1);
            let (ta, tb) = trim_range(&raw);
            let cand = slice_chars(&raw, ta, tb);
            match variable_name_of(&cand) {
                None => {
                    c = false;
                },
                Some(w) => {
                    push_key(keys, &cand, w.0, w.1);
                },
            }
            i = i + 1;
        }
        return c;
    }
    let q = skip_whitespace(st, first.1);
    if is_identifier_range(st, first.0, first.1) && q < st.len() && st[q] == '=' {
        push_key(keys, st, first.0, first.1);
        return complete;
    }
    if token_matches(st, first, "for", "для") {
        let candidate = match token_at(st, first.1) {
            None => None,
            Some(t) => {
                if token_matches(st, t, "each", "каждого") {
                    token_at(st, t.1)
                } else {
                    Some(t)
                }
            },
        };
        match candidate {
            Some(cv) => {
                if is_identifier_range(st, cv.0, cv.1) {
                    push_key(keys, st, cv.0, cv.1);
                    return complete;
                }
                return false;
            },
            None => {
                return false;
            },
        }
    }
    complete
}

/// Appends the keys of `line_bindings(x, ..)` and returns the new flag.
fn line_bindings_of(x: &[char], keys: &mut Vec<String>, complete: bool) -> (r: bool)
    ensures
        (key_view(final(keys)@), r) == line_bindings(x@, key_view(old(keys)@), complete),
{
    let v = find_visible_end(x);
    let vis = slice_chars(x, 0, v);
    assert(vis@ == x@.take(v as int));
    let parts = split_plain_of(&vis, ';');
    let mut c = complete;
    let mut i: usize = 0;
    while i < parts.len()
        invariant
            i <= parts@.len(),
            vis@ == x@.take(visible_end(x@, 0, false)),
            spans(parts@) == split_plain(vis@, ';'),
            forall|j: int| 0 <= j < parts@.len() ==> (#[trigger] parts@[j]).0 <= parts@[j].1 <= vis@.len(),
            statements_from(vis@, spans(parts@), i as int, key_view(keys@), c)
                == line_bindings(x@, key_view(old(keys)@), complete),
        decreases parts@.len() - i,
    {
        let part = parts[i];
        assert(spans(parts@)[i as int] == (part.0 as int, part.1 as int));
        let st = slice_chars(&vis, part.0, part.1);
        c = statement_bindings_of(&st, keys, c);
        i = i + 1;
    }
    c
}

// ---------------------------------------------------------------- scopes

pub proof fn lemma_tail_scan_index(
    s: Seq<char>,
    lines: Seq<(int, int)>,
    k: int,
    ci: int,
    depth: int,
    in_string: bool,
    acc: Seq<char>,
    dl: int,
    ft: Seq<char>,
)
    ensures
        tail_scan(s, lines, k, ci, depth, in_string, acc, dl, ft) matches Ok(r) ==> k <= r.0
            < lines.len(),
        tail_scan(s, lines, k, ci, depth, in_string, acc, dl, ft) matches Err(e) ==> e is Malformed,
    decreases lines.len() - k, line_text(s, lines, k).len() - ci,
{
    if k < 0 || k >= lines.len() {
    } else {
        let x = line_text(s, lines, k);
        let next_acc = if depth > 0 { acc.push('\n') } else { acc };
        if ci < 0 || ci >= x.len() {
            lemma_tail_scan_index(s, lines, k + 1, 0, depth, in_string, next_acc, dl, ft);
        } else if x[ci] == '"' {
            if in_string && ci + 1 < x.len() && x[ci + 1] == '"' {
                lemma_tail_scan_index(
                    s,
                    lines,
                    k,
                    ci + 2,
                    depth,
                    in_string,
                    if depth > 0 { acc + seq!['"', '"'] } else { acc },
                    dl,
                    ft,
                );
            } else {
                lemma_tail_scan_index(
                    s,
                    lines,
                    k,
                    ci + 1,
                    depth,
                    !in_string,
                    if depth > 0 { acc.push('"') } else { acc },
                    dl,
                    ft,
                );
            }
        } else if !in_string && comment_at(x, ci) {
            lemma_tail_scan_index(s, lines, k + 1, 0, depth, in_string, next_acc, dl, ft);
        } else if !in_string && x[ci] == '(' {
            if depth + 1 <= usize::MAX {
                lemma_tail_scan_index(
                    s,
                    lines,
                    k,
                    ci + 1,
                    depth + 1,
                    in_string,
                    if depth + 1 > 1 { acc.push('(') } else { acc },
                    dl,
                    ft,
                );
            }
        } else if !in_string && x[ci] == ')' {
            if depth > 1 {
                lemma_tail_scan_index(s, lines, k, ci + 1, depth - 1, in_string, acc.push(')'), dl, ft);
            }
        } else {
            lemma_tail_scan_index(
                s,
                lines,
                k,
                ci + 1,
                depth,
                in_string,
                if depth > 0 { acc.push(x[ci]) } else { acc },
                dl,
                ft,
            );
        }
    }
}

/// Result of parsing a declaration header: its symbol, the index of the line
/// that closes the parameter list, and the parameter keys.
pub struct HeaderView {
    pub symbol: SymbolView,
    pub end_index: int,
    pub params: Seq<Seq<char>>,
}

/// Parses the header of a declaration of `kind` on line `idx` of a module whose
/// identifier is `module`.
pub open spec fn header(
    s: Seq<char>,
    lines: Seq<(int, int)>,
    module: Seq<char>,
    idx: int,
    kind: BslSymbolKind,
) -> Result<HeaderView, ParseErrorView> {
    let x = line_text(s, lines, idx);
    let ln = idx + 1;
    let lead = skip_ws(x, 0);
    let t = x.skip(lead);
    match header_keyword(x, lead) {
        None => Err(malformed(ln, t)),
        Some(kw) => match token_from(x, kw.1) {
            None => Err(malformed(ln, t)),
            Some(nm) => {
                let name = piece(x, nm);
                let open = skip_ws(x, nm.1);
                if !is_identifier(name) || !(open < x.len() && x[open] == '(') {
                    Err(malformed(ln, t))
                } else {
                    match tail_scan(s, lines, idx, open, 0, false, Seq::empty(), ln, t) {
                        Err(e) => Err(e),
                        Ok(tail) => {
                            let pb = parameter_bindings(tail.1);
                            let c = text_start(s, lines, idx) + nm.0;
                            if !pb.1 {
                                Err(malformed(ln, t))
                            } else if all_ws(name) {
                                Err(ParseErrorView::InvalidName(ln))
                            } else if all_ws(callable_id_text(module, kind, name)) {
                                Err(ParseErrorView::InvalidIdentifier(ln))
                            } else {
                                Ok(
                                    HeaderView {
                                        symbol: SymbolView {
                                            id: callable_id_text(module, kind, name),
                                            name,
                                            kind,
                                            line: ln,
                                            exported: tail.2,
                                            range: Some((byte_at(s, c), byte_at(s, c + name.len()))),
                                        },
                                        end_index: tail.0,
                                        params: pb.0,
                                    },
                                )
                            }
                        },
                    }
                }
            },
        },
    }
}

/// Scans the body of the declaration of `kind` on line `idx` from line `bi` on,
/// collecting local binding keys: the index of the matching end line, the keys
/// and whether every binding could be read.
pub open spec fn body_scan(
    s: Seq<char>,
    lines: Seq<(int, int)>,
    idx: int,
    kind: BslSymbolKind,
    bi: int,
    keys: Seq<Seq<char>>,
    complete: bool,
) -> Result<(int, Seq<Seq<char>>, bool), ParseErrorView>
    decreases lines.len() - bi,
{
    if bi < 0 || bi >= lines.len() {
        let x = line_text(s, lines, idx);
        Err(malformed(idx + 1, x.skip(skip_ws(x, 0))))
    } else {
        let x = line_text(s, lines, bi);
        let p = skip_ws(x, 0);
        if directive_at(x, p) {
            body_scan(s, lines, idx, kind, bi + 1, keys, complete)
        } else if start_kind(x, p) is Some {
            Err(ParseErrorView::Nested(bi + 1))
        } else {
            match end_kind(x, p) {
                Some(actual) => if actual != kind || !valid_end_tail(x, p) {
                    Err(malformed(bi + 1, x.skip(p)))
                } else {
                    Ok((bi, keys, complete))
                },
                None => {
                    let r = line_bindings(x, keys, complete);
                    body_scan(s, lines, idx, kind, bi + 1, r.0, r.1)
                },
            }
        }
    }
}

pub proof fn lemma_body_scan_index(
    s: Seq<char>,
    lines: Seq<(int, int)>,
    idx: int,
    kind: BslSymbolKind,
    bi: int,
    keys: Seq<Seq<char>>,
    complete: bool,
)
    ensures
        body_scan(s, lines, idx, kind, bi, keys, complete) matches Ok(r) ==> bi <= r.0
            < lines.len(),
        body_scan(s, lines, idx, kind, bi, keys, complete) matches Err(e) ==> !(e is BoundExceeded),
    decreases lines.len() - bi,
{
    if 0 <= bi < lines.len() {
        let x = line_text(s, lines, bi);
        let p = skip_ws(x, 0);
        if directive_at(x, p) {
            lemma_body_scan_index(s, lines, idx, kind, bi + 1, keys, complete);
        } else if end_kind(x, p) is None {
            let r = line_bindings(x, keys, complete);
            lemma_body_scan_index(s, lines, idx, kind, bi + 1, r.0, r.1);
        }
    }
}

/// One parsed callable scope: its symbol, the last header line, the end line
/// (one-based) and the keys of the names that shadow module qualifiers in it.
pub struct ScopeView {
    pub symbol: SymbolView,
    pub header_end_line: int,
    pub end_line: int,
    pub keys: Seq<Seq<char>>,
    pub complete: bool,
}

/// Scans a module for callable scopes from line `idx` on, appending to `acc`;
/// with a `maximum`, the scope that would exceed it is rejected.
pub open spec fn scopes_scan(
    s: Seq<char>,
    lines: Seq<(int, int)>,
    module: Seq<char>,
    idx: int,
    maximum: Option<int>,
    acc: Seq<ScopeView>,
) -> Result<Seq<ScopeView>, ParseErrorView>
    decreases lines.len() - idx,
{
    if idx < 0 || idx >= lines.len() {
        Ok(acc)
    } else {
        let x = line_text(s, lines, idx);
        let p = skip_ws(x, 0);
        if p >= x.len() || directive_at(x, p) {
            scopes_scan(s, lines, module, idx + 1, maximum, acc)
        } else if end_kind(x, p) is Some {
            Err(malformed(idx + 1, x.skip(p)))
        } else {
            match start_kind(x, p) {
                None => scopes_scan(s, lines, module, idx + 1, maximum, acc),
                Some(kind) => match header(s, lines, module, idx, kind) {
                    Err(e) => Err(e),
                    Ok(h) => match body_scan(s, lines, idx, kind, h.end_index + 1, h.params, true) {
                        Err(e) => Err(e),
                        Ok(b) => if maximum matches Some(m) && acc.len() >= m {
                            Err(
                                ParseErrorView::BoundExceeded {
                                    actual: acc.len() + 1int,
                                    maximum: maximum->0,
                                },
                            )
                        } else {
                            proof {
                                let t = x.skip(p);
                                let kw = header_keyword(x, p)->0;
                                let nm = token_from(x, kw.1)->0;
                                lemma_tail_scan_index(
                                    s,
                                    lines,
                                    idx,
                                    skip_ws(x, nm.1),
                                    0,
                                    false,
                                    Seq::empty(),
                                    idx + 1,
                                    t,
                                );
                                lemma_body_scan_index(s, lines, idx, kind, h.end_index + 1, h.params, true);
                            }
                            scopes_scan(
                                s,
                                lines,
                                module,
                                b.0 + 1,
                                maximum,
                                acc.push(
                                    ScopeView {
                                        symbol: h.symbol,
                                        header_end_line: h.end_index + 1,
                                        end_line: b.0 + 1,
                                        keys: b.1,
                                        complete: b.2,
                                    },
                                ),
                            )
                        },
                    },
                },
            }
        }
    }
}

/// Line `line` (one-based) lies within one of the scopes, header to end line.
pub open spec fn inside_scope(scopes: Seq<ScopeView>, line: int) -> bool {
    exists|j: int| 0 <= j < scopes.len() && #[trigger] scopes[j].symbol.line <= line <= scopes[j].end_line
}

/// Module-level binding keys: those of the lines from `k` on outside every scope.
pub open spec fn module_scan(
    s: Seq<char>,
    lines: Seq<(int, int)>,
    scopes: Seq<ScopeView>,
    k: int,
    keys: Seq<Seq<char>>,
    complete: bool,
) -> (Seq<Seq<char>>, bool)
    decreases lines.len() - k,
{
    if k < 0 || k >= lines.len() {
        (keys, complete)
    } else if inside_scope(scopes, k + 1) {
        module_scan(s, lines, scopes, k + 1, keys, complete)
    } else {
        let r = line_bindings(line_text(s, lines, k), keys, complete);
        module_scan(s, lines, scopes, k + 1, r.0, r.1)
    }
}

/// A parsed module: its scopes and its module-level binding keys. Module-level
/// bindings shadow qualifiers inside every scope as well.
pub struct ModuleView {
    pub scopes: Seq<ScopeView>,
    pub keys: Seq<Seq<char>>,
    pub complete: bool,
}

/// Parses the callable scopes of a module. A source that starts with two
/// byte-order marks holds no scopes.
pub open spec fn parse_module(s: Seq<char>, module: Seq<char>, maximum: Option<int>) -> Result<
    ModuleView,
    ParseErrorView,
> {
    if s.len() >= 2 && s[0] == '\u{feff}' && s[1] == '\u{feff}' {
        Ok(ModuleView { scopes: Seq::empty(), keys: Seq::empty(), complete: true })
    } else {
        let lines = source_lines(s);
        match scopes_scan(s, lines, module, 0, maximum, Seq::empty()) {
            Err(e) => Err(e),
            Ok(scopes) => {
                let m = module_scan(s, lines, scopes, 0, Seq::empty(), true);
                Ok(ModuleView { scopes, keys: m.0, complete: m.1 })
            },
        }
    }
}

/// Inside scope `j`, the qualifier `name` may denote a local value rather than
/// a module: a parameter, local or module-level binding has its key, or some
/// binding could not be read.
pub open spec fn scope_shadows(m: ModuleView, j: int, name: Seq<char>) -> bool {
    ||| !(m.scopes[j].complete && m.complete)
    ||| m.scopes[j].keys.contains(lowercase(name))
    ||| m.keys.contains(lowercase(name))
}

/// Outside every scope, the qualifier `name` may denote a module-level value.
pub open spec fn module_shadows(m: ModuleView, name: Seq<char>) -> bool {
    !m.complete || m.keys.contains(lowercase(name))
}

/// The optional bound as an integer.
pub open spec fn bound_view(maximum: Option<usize>) -> Option<int> {
    match maximum {
        Some(m) => Some(m as int),
        None => None,
    }
}

pub proof fn lemma_byte_at_strict(s: Seq<char>, i: int, j: int)
    requires
        0 <= i < j <= s.len(),
    ensures
        byte_at(s, i) < byte_at(s, j),
    decreases j - i,
{
    assert(s.take(j).drop_last() == s.take(j - 1));
    if i < j - 1 {
        lemma_byte_at_strict(s, i, j - 1);
    }
}

/// Byte offsets of every scalar index of `s`.
pub open spec fn offsets_wf(s: Seq<char>, offs: Seq<usize>) -> bool {
    &&& offs.len() == s.len() + 1
    &&& forall|i: int| 0 <= i <= s.len() ==> (#[trigger] offs[i]) as int == byte_at(s, i)
}

/// Returns `text_start(s, lines, k)`.
pub(crate) fn text_start_of(s: &[char], lines: &Vec<(usize, usize)>, k: usize) -> (r: usize)
    requires
        lines_wf(s@, lines@),
        k < lines@.len(),
    ensures
        r as int == text_start(s@, spans(lines@), k as int),
        r <= lines@[k as int].1,
{
    proof {
        lemma_text_start_bounds(s@, lines@, k as int);
    }
    let (start, end) = lines[k];
    if k == 0 && start < end && s[start] == '\u{feff}' {
        start + 1
    } else {
        start
    }
}

/// Parses the header of the declaration of `kind` on line `idx`.
fn parse_header(
    s: &[char],
    offs: &Vec<usize>,
    lines: &Vec<(usize, usize)>,
    module_id: &EntityId,
    idx: usize,
    kind: BslSymbolKind,
) -> (r: Result<(BslSymbol, usize, Vec<String>), BslParseError>)
    requires
        lines_wf(s@, lines@),
        offsets_wf(s@, offs@),
        idx < lines@.len(),
    ensures
        match r {
            Ok((sym, e, keys)) => header(s@, spans(lines@), module_id@, idx as int, kind) == Ok::<
                HeaderView,
                ParseErrorView,
            >(HeaderView { symbol: sym@, end_index: e as int, params: key_view(keys@) }),
            Err(err) => header(s@, spans(lines@), module_id@, idx as int, kind) == Err::<
                HeaderView,
                ParseErrorView,
            >(err@),
        },
        r matches Ok((_, e, _)) ==> idx <= e < lines@.len(),
{
    let x = line_text_of(s, lines, idx);
    let count = lines.len();
    assert(idx < count);
    let ln = idx + 1;
    let lead = skip_whitespace(&x, 0);
    let t = slice_chars(&x, lead, x.len());
    assert(t@ == x@.skip(lead as int));
    let kw = match header_keyword_at(&x, lead) {
        None => {
            return Err(malformed_error(ln, &t));
        },
        Some(k) => k,
    };
    let nm = match token_at(&x, kw.1) {
        None => {
            return Err(malformed_error(ln, &t));
        },
        Some(n) => n,
    };
    let open = skip_whitespace(&x, nm.1);
    if !is_identifier_range(&x, nm.0, nm.1) || !(open < x.len() && x[open] == '(') {
        return Err(malformed_error(ln, &t));
    }
    let (end, ptext, exported) = match scan_header_tail(s, lines, idx, open, ln, &t) {
        Err(e) => {
            return Err(e);
        },
        Ok(v) => v,
    };
    proof {
        lemma_tail_scan_index(
            s@,
            spans(lines@),
            idx as int,
            open as int,
            0,
            false,
            Seq::empty(),
            ln as int,
            t@,
        );
    }
    let mut params: Vec<String> = Vec::new();
    let complete = parameter_bindings_of(&ptext, &mut params);
    if !complete {
        return Err(malformed_error(ln, &t));
    }
    let name_text = string_of_range(&x, nm.0, nm.1);
    let name = match EntityName::new(name_text.as_str()) {
        Err(_) => {
            return Err(BslParseError::InvalidName(ln));
        },
        Ok(n) => n,
    };
    let id = match bsl_callable_id(module_id, kind, name_text.as_str()) {
        Err(_) => {
            return Err(BslParseError::InvalidIdentifier(ln));
        },
        Ok(i) => i,
    };
    let ts = text_start_of(s, lines, idx);
    proof {
        lemma_text_start_bounds(s@, lines@, idx as int);
    }
    let c = ts + nm.0;
    let c_end = ts + nm.1;
    proof {
        lemma_byte_at_strict(s@, c as int, c_end as int);
    }
    let range = match BslIdentifierRange::new(offs[c], offs[c_end]) {
        Some(r) => r,
        None => {
            return Err(BslParseError::InvalidIdentifier(ln));
        },
    };
    Ok((BslSymbol::new_with_identifier_range(id, name, kind, ln, exported, range), end, params))
}

/// Scans the body of the declaration on line `idx` from line `bi0` on.
fn scan_body(
    s: &[char],
    lines: &Vec<(usize, usize)>,
    idx: usize,
    kind: BslSymbolKind,
    bi0: usize,
    initial_keys: Vec<String>,
) -> (r: Result<(usize, Vec<String>, bool), BslParseError>)
    requires
        lines_wf(s@, lines@),
        idx < lines@.len(),
    ensures
        match r {
            Ok((e, ks, c)) => body_scan(
                s@,
                spans(lines@),
                idx as int,
                kind,
                bi0 as int,
                key_view(initial_keys@),
                true,
            )
                == Ok::<(int, Seq<Seq<char>>, bool), ParseErrorView>((e as int, key_view(ks@), c)),
            Err(err) => body_scan(
                s@,
                spans(lines@),
                idx as int,
                kind,
                bi0 as int,
                key_view(initial_keys@),
                true,
            )
                == Err::<(int, Seq<Seq<char>>, bool), ParseErrorView>(err@),
        },
        r matches Ok((e, _, _)) ==> bi0 <= e < lines@.len(),
{
    proof {
        lemma_body_scan_index(s@, spans(lines@), idx as int, kind, bi0 as int, key_view(initial_keys@), true);
    }
    let ghost l = spans(lines@);
    let ghost target = body_scan(s@, l, idx as int, kind, bi0 as int, key_view(initial_keys@), true);
    let mut keys = initial_keys;
    let mut complete = true;
    let mut bi = bi0;
    while bi < lines.len()
        invariant
            lines_wf(s@, lines@),
            l == spans(lines@),
            idx < lines@.len(),
            bi0 <= bi,
            target == body_scan(s@, l, idx as int, kind, bi0 as int, key_view(initial_keys@), true),
            body_scan(s@, l, idx as int, kind, bi as int, key_view(keys@), complete) == target,
        decreases lines@.len() - bi,
    {
        let x = line_text_of(s, lines, bi);
        let p = skip_whitespace(&x, 0);
        let line_number = bi + 1;
        if directive_starts(&x, p) {
            bi = bi + 1;
            continue;
        }
        if start_kind_at(&x, p).is_some() {
            return Err(BslParseError::NestedDeclaration(line_number));
        }
        match end_kind_at(&x, p) {
            Some(actual) => {
                if actual != kind || !valid_end_tail_at(&x, p) {
                    let rest = slice_chars(&x, p, x.len());
                    assert(rest@ == x@.skip(p as int));
                    return Err(malformed_error(line_number, &rest));
                }
                return Ok((bi, keys, complete));
            },
            None => {
                complete = line_bindings_of(&x, &mut keys, complete);
                bi = bi + 1;
            },
        }
    }
    let x = line_text_of(s, lines, idx);
    let p = skip_whitespace(&x, 0);
    let rest = slice_chars(&x, p, x.len());
    assert(rest@ == x@.skip(p as int));
    Err(malformed_error(idx + 1, &rest))
}

/// One parsed callable scope with the keys of its parameters and local bindings.
pub(crate) struct ParsedCallableScope {
    symbol: BslSymbol,
    header_end_line: usize,
    end_line: usize,
    shadowed_names: Vec<String>,
    bindings_complete: bool,
}

impl View for ParsedCallableScope {
    type V = ScopeView;

    closed spec fn view(&self) -> ScopeView {
        ScopeView {
            symbol: self.symbol@,
            header_end_line: self.header_end_line as int,
            end_line: self.end_line as int,
            keys: key_view(self.shadowed_names@),
            complete: self.bindings_complete,
        }
    }
}

impl ParsedCallableScope {
    pub(crate) fn symbol(&self) -> (r: &BslSymbol)
        ensures
            r@ == self@.symbol,
    {
        &self.symbol
    }

    pub(crate) fn header_end_line(&self) -> (r: usize)
        ensures
            r as int == self@.header_end_line,
    {
        self.header_end_line
    }

    pub(crate) fn end_line(&self) -> (r: usize)
        ensures
            r as int == self@.end_line,
    {
        self.end_line
    }
}

/// The scope views of `v`.
pub open spec fn scope_views(v: Seq<ParsedCallableScope>) -> Seq<ScopeView> {
    v.map_values(|sc: ParsedCallableScope| sc@)
}

/// The callable scopes of a module and its module-level binding keys.
pub(crate) struct ParsedCallableModule {
    scopes: Vec<ParsedCallableScope>,
    shadowed_names: Vec<String>,
    bindings_complete: bool,
}

impl View for ParsedCallableModule {
    type V = ModuleView;

    closed spec fn view(&self) -> ModuleView {
        ModuleView {
            scopes: scope_views(self.scopes@),
            keys: key_view(self.shadowed_names@),
            complete: self.bindings_complete,
        }
    }
}

/// Returns whether `key` is one of `keys`.
fn keys_contain(keys: &Vec<String>, key: &String) -> (r: bool)
    ensures
        r == key_view(keys@).contains(key@),
{
    let mut i: usize = 0;
    while i < keys.len()
        invariant
            i <= keys@.len(),
            forall|j: int| 0 <= j < i ==> key_view(keys@)[j] != key@,
        decreases keys@.len() - i,
    {
        if keys[i] == *key {
            assert(key_view(keys@)[i as int] == key@);
            return true;
        }
        i = i + 1;
    }
    false
}

impl ParsedCallableModule {
    pub(crate) fn scopes(&self) -> (r: &Vec<ParsedCallableScope>)
        ensures
            scope_views(r@) == self@.scopes,
    {
        &self.scopes
    }

    /// Whether `value` may denote a local value inside scope `j`.
    pub(crate) fn scope_shadows(&self, j: usize, value: &str) -> (r: bool)
        requires
            j < self@.scopes.len(),
        ensures
            r == scope_shadows(self@, j as int, value@),
    {
        let scope = &self.scopes[j];
        assert(self@.scopes[j as int] == scope@);
        if !(scope.bindings_complete && self.bindings_complete) {
            return true;
        }
        let key = bsl_name_key(value);
        keys_contain(&scope.shadowed_names, &key) || keys_contain(&self.shadowed_names, &key)
    }

    /// Whether `value` may denote a module-level value outside every scope.
    pub(crate) fn module_shadows(&self, value: &str) -> (r: bool)
        ensures
            r == module_shadows(self@, value@),
    {
        if !self.bindings_complete {
            return true;
        }
        let key = bsl_name_key(value);
        keys_contain(&self.shadowed_names, &key)
    }

    /// Moves the symbols out of the parsed scopes, in order.
    pub(crate) fn into_symbols(self) -> (r: Vec<BslSymbol>)
        ensures
            r@.len() == self@.scopes.len(),
            forall|j: int| 0 <= j < r@.len() ==> (#[trigger] r@[j])@ == self@.scopes[j].symbol,
    {
        let mut out: Vec<BslSymbol> = Vec::new();
        let mut i: usize = 0;
        while i < self.scopes.len()
            invariant
                i <= self.scopes@.len(),
                out@.len() == i,
                forall|j: int| 0 <= j < i ==> (#[trigger] out@[j])@ == self@.scopes[j].symbol,
            decreases self.scopes@.len() - i,
        {
            assert(self@.scopes[i as int] == self.scopes@[i as int]@);
            out.push(self.scopes[i].symbol.duplicate());
            i = i + 1;
        }
        out
    }
}

/// Returns `inside_scope(scope_views(scopes), line)`.
fn inside_any(scopes: &Vec<ParsedCallableScope>, line: usize) -> (r: bool)
    ensures
        r == inside_scope(scope_views(scopes@), line as int),
{
    let mut i: usize = 0;
    while i < scopes.len()
        invariant
            i <= scopes@.len(),
            forall|j: int|
                0 <= j < i ==> !(#[trigger] scope_views(scopes@)[j].symbol.line <= line
                    <= scope_views(scopes@)[j].end_line),
        decreases scopes@.len() - i,
    {
        let sc = &scopes[i];
        assert(scope_views(scopes@)[i as int] == sc@);
        if sc.symbol.line() <= line && line <= sc.end_line {
            assert(scope_views(scopes@)[i as int].symbol.line <= line <= scope_views(scopes@)[i as int].end_line);
            return true;
        }
        i = i + 1;
    }
    false
}

/// Parses the callable scopes of the module whose scalars are `s`.
pub(crate) fn parse_callable_scopes_bounded(
    module_id: &EntityId,
    s: &[char],
    maximum: Option<usize>,
) -> (r: Result<ParsedCallableModule, BslParseError>)
    requires
        utf8_len(s@) <= usize::MAX,
    ensures
        match r {
            Ok(m) => parse_module(s@, module_id@, bound_view(maximum)) == Ok::<
                ModuleView,
                ParseErrorView,
            >(m@),
            Err(e) => parse_module(s@, module_id@, bound_view(maximum)) == Err::<
                ModuleView,
                ParseErrorView,
            >(e@),
        },
{
    if s.len() >= 2 && s[0] == '\u{feff}' && s[1] == '\u{feff}' {
        let m = ParsedCallableModule {
            scopes: Vec::new(),
            shadowed_names: Vec::new(),
            bindings_complete: true,
        };
        assert(m@.scopes == Seq::<ScopeView>::empty());
        assert(m@.keys == Seq::<Seq<char>>::empty());
        return Ok(m);
    }
    let offs = byte_offsets(s);
    let lines = line_spans(s);
    let ghost l = spans(lines@);
    let ghost bound = bound_view(maximum);
    let ghost target = scopes_scan(s@, l, module_id@, 0, bound, Seq::empty());
    let mut scopes: Vec<ParsedCallableScope> = Vec::new();
    let mut index: usize = 0;
    assert(scope_views(scopes@) == Seq::<ScopeView>::empty());
    while index < lines.len()
        invariant
            lines_wf(s@, lines@),
            offsets_wf(s@, offs@),
            l == spans(lines@),
            bound == bound_view(maximum),
            !(s@.len() >= 2 && s@[0] == '\u{feff}' && s@[1] == '\u{feff}'),
            index <= lines@.len(),
            scopes@.len() <= index,
            target == scopes_scan(s@, l, module_id@, 0, bound, Seq::empty()),
            scopes_scan(s@, l, module_id@, index as int, bound, scope_views(scopes@)) == target,
        decreases lines@.len() - index,
    {
        let x = line_text_of(s, &lines, index);
        let p = skip_whitespace(&x, 0);
        let count = lines.len();
        assert(index < count);
        let line_number = index + 1;
        if p >= x.len() || directive_starts(&x, p) {
            index = index + 1;
            continue;
        }
        if end_kind_at(&x, p).is_some() {
            let rest = slice_chars(&x, p, x.len());
            assert(rest@ == x@.skip(p as int));
            return Err(malformed_error(line_number, &rest));
        }
        let kind = match start_kind_at(&x, p) {
            None => {
                index = index + 1;
                continue;
            },
            Some(k) => k,
        };
        let (symbol, header_end, params) = match parse_header(
            s,
            &offs,
            &lines,
            module_id,
            index,
            kind,
        ) {
            Err(e) => {
                return Err(e);
            },
            Ok(v) => v,
        };
        let (end_index, keys, complete) = match scan_body(
            s,
            &lines,
            index,
            kind,
            header_end + 1,
            params,
        ) {
            Err(e) => {
                return Err(e);
            },
            Ok(v) => v,
        };
        match maximum {
            Some(m) => {
                if scopes.len() >= m {
                    return Err(BslParseError::BoundExceeded { actual: scopes.len() + 1, maximum: m });
                }
            },
            None => {},
        }
        let scope = ParsedCallableScope {
            symbol,
            header_end_line: header_end + 1,
            end_line: end_index + 1,
            shadowed_names: keys,
            bindings_complete: complete,
        };
        let ghost before = scopes@;
        scopes.push(scope);
        assert(scope_views(scopes@) == scope_views(before).push(scope@));
        index = end_index + 1;
    }
    let ghost sv = scope_views(scopes@);
    let ghost mtarget = module_scan(s@, l, sv, 0, Seq::empty(), true);
    let mut mkeys: Vec<String> = Vec::new();
    let mut mcomplete = true;
    let mut k: usize = 0;
    assert(key_view(mkeys@) == Seq::<Seq<char>>::empty());
    while k < lines.len()
        invariant
            lines_wf(s@, lines@),
            l == spans(lines@),
            sv == scope_views(scopes@),
            k <= lines@.len(),
            mtarget == module_scan(s@, l, sv, 0, Seq::empty(), true),
            module_scan(s@, l, sv, k as int, key_view(mkeys@), mcomplete) == mtarget,
        decreases lines@.len() - k,
    {
        let count = lines.len();
        assert(k < count);
        if inside_any(&scopes, k + 1) {
            k = k + 1;
            continue;
        }
        let x = line_text_of(s, &lines, k);
        mcomplete = line_bindings_of(&x, &mut mkeys, mcomplete);
        k = k + 1;
    }
    Ok(ParsedCallableModule { scopes, shadowed_names: mkeys, bindings_complete: mcomplete })
}

/// The symbols of `v`.
pub open spec fn symbol_views(v: Seq<BslSymbol>) -> Seq<SymbolView> {
    v.map_values(|x: BslSymbol| x@)
}

/// The declarations of a module in source order, or the first error.
pub open spec fn extracted_symbols(s: Seq<char>, module: Seq<char>, maximum: Option<int>) -> Result<
    Seq<SymbolView>,
    ParseErrorView,
> {
    match parse_module(s, module, maximum) {
        Ok(m) => Ok(m.scopes.map_values(|sc: ScopeView| sc.symbol)),
        Err(e) => Err(e),
    }
}

/// Extracts top-level declarations from a BSL module.
pub trait BslDeclarationExtractor {
    /// Extracts declarations using `module_id` as the stable parent identifier.
    fn extract(&self, module_id: &EntityId, source: &str) -> (r: Result<Vec<BslSymbol>, BslParseError>)
    ;
}

/// Deterministic line-oriented extractor for top-level BSL declarations.
#[derive(Debug, Clone, Copy)]
pub struct LineBslDeclarationExtractor;

/// Moves the symbols of a parsed module out, or passes the error on.
fn symbols_of(r: Result<ParsedCallableModule, BslParseError>) -> (out: Result<Vec<BslSymbol>, BslParseError>)
    ensures
        match (r, out) {
            (Ok(m), Ok(v)) => symbol_views(v@) == m@.scopes.map_values(|sc: ScopeView| sc.symbol),
            (Err(e), Err(f)) => e@ == f@,
            _ => false,
        },
{
    match r {
        Ok(m) => {
            let ghost mv = m@;
            let v = m.into_symbols();
            assert(symbol_views(v@) == mv.scopes.map_values(|sc: ScopeView| sc.symbol));
            Ok(v)
        },
        Err(e) => Err(e),
    }
}

impl BslDeclarationExtractor for LineBslDeclarationExtractor {
    fn extract(&self, module_id: &EntityId, source: &str) -> (r: Result<Vec<BslSymbol>, BslParseError>)
        ensures
            match r {
                Ok(v) => extracted_symbols(source@, module_id@, None) == Ok::<
                    Seq<SymbolView>,
                    ParseErrorView,
                >(symbol_views(v@)),
                Err(e) => extracted_symbols(source@, module_id@, None) == Err::<
                    Seq<SymbolView>,
                    ParseErrorView,
                >(e@),
            },
    {
        let s = chars_of(source);
        symbols_of(parse_callable_scopes_bounded(module_id, s.as_slice(), None))
    }
}

impl LineBslDeclarationExtractor {
    /// Extracts declarations while rejecting the first symbol above `maximum`
    /// before retaining it.
    pub fn extract_bounded(&self, module_id: &EntityId, source: &str, maximum: usize) -> (r: Result<
        Vec<BslSymbol>,
        BslParseError,
    >)
        ensures
            match r {
                Ok(v) => extracted_symbols(source@, module_id@, Some(maximum as int)) == Ok::<
                    Seq<SymbolView>,
                    ParseErrorView,
                >(symbol_views(v@)),
                Err(e) => extracted_symbols(source@, module_id@, Some(maximum as int)) == Err::<
                    Seq<SymbolView>,
                    ParseErrorView,
                >(e@),
            },
    {
        let s = chars_of(source);
        symbols_of(parse_callable_scopes_bounded(module_id, s.as_slice(), Some(maximum)))
    }
}

pub proof fn lemma_header_errors(
    s: Seq<char>,
    lines: Seq<(int, int)>,
    module: Seq<char>,
    idx: int,
    kind: BslSymbolKind,
)
    ensures
        header(s, lines, module, idx, kind) matches Err(e) ==> !(e is BoundExceeded),
{
    let x = line_text(s, lines, idx);
    let lead = skip_ws(x, 0);
    let t = x.skip(lead);
    if let Some(kw) = header_keyword(x, lead) {
        if let Some(nm) = token_from(x, kw.1) {
            let open = skip_ws(x, nm.1);
            lemma_tail_scan_index(s, lines, idx, open, 0, false, Seq::empty(), idx + 1, t);
        }
    }
}

pub proof fn lemma_unbounded_scan_errors(
    s: Seq<char>,
    lines: Seq<(int, int)>,
    module: Seq<char>,
    idx: int,
    acc: Seq<ScopeView>,
)
    ensures
        scopes_scan(s, lines, module, idx, None, acc) matches Err(e) ==> !(e is BoundExceeded),
    decreases lines.len() - idx,
{
    if 0 <= idx < lines.len() {
        let x = line_text(s, lines, idx);
        let p = skip_ws(x, 0);
        if p >= x.len() || directive_at(x, p) {
            lemma_unbounded_scan_errors(s, lines, module, idx + 1, acc);
        } else if end_kind(x, p) is None {
            match start_kind(x, p) {
                None => {
                    lemma_unbounded_scan_errors(s, lines, module, idx + 1, acc);
                },
                Some(kind) => {
                    lemma_header_errors(s, lines, module, idx, kind);
                    if let Ok(h) = header(s, lines, module, idx, kind) {
                        lemma_body_scan_index(s, lines, idx, kind, h.end_index + 1, h.params, true);
                        if let Ok(b) = body_scan(s, lines, idx, kind, h.end_index + 1, h.params, true) {
                            let t = x.skip(p);
                            let kw = header_keyword(x, p)->0;
                            let nm = token_from(x, kw.1)->0;
                            lemma_tail_scan_index(s, lines, idx, skip_ws(x, nm.1), 0, false, Seq::empty(), idx + 1, t);
                            lemma_unbounded_scan_errors(
                                s,
                                lines,
                                module,
                                b.0 + 1,
                                acc.push(
                                    ScopeView {
                                        symbol: h.symbol,
                                        header_end_line: h.end_index + 1,
                                        end_line: b.0 + 1,
                                        keys: b.1,
                                        complete: b.2,
                                    },
                                ),
                            );
                        }
                    }
                },
            }
        }
    }
}

/// Without a bound, module parsing never reports an exceeded bound.
pub proof fn lemma_unbounded_parse_errors(s: Seq<char>, module: Seq<char>)
    ensures
        parse_module(s, module, None) matches Err(e) ==> !(e is BoundExceeded),
{
    lemma_unbounded_scan_errors(s, source_lines(s), module, 0, Seq::empty());
}

pub proof fn lemma_lines_from_ordered(s: Seq<char>, i: int)
    requires
        0 <= i,
    ensures
        forall|k: int|
            0 <= k < lines_from(s, i).len() ==> {
                &&& i <= (#[trigger] lines_from(s, i)[k]).0 <= lines_from(s, i)[k].1 <= s.len()
                &&& k + 1 < lines_from(s, i).len() ==> lines_from(s, i)[k].1 < lines_from(s, i)[k
                    + 1].0
            },
    decreases s.len() - i,
{
    if i < s.len() {
        let e = line_end(s, i);
        lemma_line_end_bounds(s, i);
        if e < s.len() {
            let n = next_line_start(s, e);
            lemma_lines_from_ordered(s, n);
            let rest = lines_from(s, n);
            let all = lines_from(s, i);
            assert(all == seq![(i, e)] + rest);
            assert forall|k: int| 0 <= k < all.len() implies {
                &&& i <= (#[trigger] all[k]).0 <= all[k].1 <= s.len()
                &&& k + 1 < all.len() ==> all[k].1 < all[k + 1].0
            } by {
                if k > 0 {
                    assert(all[k] == rest[k - 1]);
                    if k + 1 < all.len() {
                        assert(all[k + 1] == rest[k]);
                    }
                } else if all.len() > 1 {
                    assert(all[1] == rest[0]);
                }
            }
        }
    }
}

proof fn lemma_token_from_bounds(t: Seq<char>, i: int)
    requires
        0 <= i <= t.len(),
    ensures
        token_from(t, i) matches Some(tok) ==> i <= tok.0 < tok.1 <= t.len(),
{
    crate::text::lemma_skip_ws_bounds(t, i);
    crate::bsl::lexical::lemma_word_end_bounds(t, skip_ws(t, i));
}

/// A parsed header names its callable exactly: the name is a piece of the
/// source whose UTF-8 byte range is the symbol's identifier range, the
/// symbol sits on the header's line, and its identifier is built from the
/// module identifier, the kind and the name.
pub proof fn law_header_symbol_is_exact(
    s: Seq<char>,
    lines: Seq<(usize, usize)>,
    module: Seq<char>,
    idx: int,
    kind: BslSymbolKind,
)
    requires
        lines_wf(s, lines),
        0 <= idx < lines.len(),
    ensures
        header(s, spans(lines), module, idx, kind) matches Ok(h) ==> {
            &&& h.symbol.line == idx + 1
            &&& h.symbol.kind == kind
            &&& h.symbol.id == callable_id_text(module, kind, h.symbol.name)
            &&& exists|c: int, e: int|
                0 <= c <= e <= s.len() && #[trigger] s.subrange(c, e) == h.symbol.name && h.symbol.range == Some(
                    (byte_at(s, c), byte_at(s, e)),
                )
        },
{
    lemma_text_start_bounds(s, lines, idx);
    let sp = spans(lines);
    let x = line_text(s, sp, idx);
    let ts = text_start(s, sp, idx);
    let lead = skip_ws(x, 0);
    crate::text::lemma_skip_ws_bounds(x, 0);
    lemma_token_from_bounds(x, lead);
    if let Some(first) = token_from(x, lead) {
        lemma_token_from_bounds(x, first.1);
    }
    if let Some(kw) = header_keyword(x, lead) {
        lemma_token_from_bounds(x, kw.1);
        if let Some(nm) = token_from(x, kw.1) {
            if let Ok(h) = header(s, sp, module, idx, kind) {
                let c = ts + nm.0;
                let e = ts + nm.1;
                assert(s.subrange(c, e) =~= x.subrange(nm.0, nm.1));
                assert(h.symbol.name == piece(x, nm));
            }
        }
    }
}

/// Symbol lines strictly increase along `scopes`.
pub open spec fn lines_increase(scopes: Seq<ScopeView>) -> bool {
    forall|i: int, j: int| 0 <= i < j < scopes.len() ==> #[trigger] scopes[i].symbol.line < #[trigger] scopes[j].symbol.line
}

proof fn lemma_scopes_scan_lines(
    s: Seq<char>,
    lines: Seq<(int, int)>,
    module: Seq<char>,
    idx: int,
    maximum: Option<int>,
    acc: Seq<ScopeView>,
)
    requires
        0 <= idx,
        lines_increase(acc),
        forall|j: int| 0 <= j < acc.len() ==> (#[trigger] acc[j]).symbol.line <= idx,
    ensures
        scopes_scan(s, lines, module, idx, maximum, acc) matches Ok(r) ==> lines_increase(r),
    decreases lines.len() - idx,
{
    if idx < lines.len() {
        let x = line_text(s, lines, idx);
        let p = skip_ws(x, 0);
        if p >= x.len() || directive_at(x, p) {
            lemma_scopes_scan_lines(s, lines, module, idx + 1, maximum, acc);
        } else if end_kind(x, p) is Some {
        } else {
            match start_kind(x, p) {
                None => lemma_scopes_scan_lines(s, lines, module, idx + 1, maximum, acc),
                Some(kind) => match header(s, lines, module, idx, kind) {
                    Err(_) => {},
                    Ok(h) => match body_scan(s, lines, idx, kind, h.end_index + 1, h.params, true) {
                        Err(_) => {},
                        Ok(b) => {
                            if !(maximum matches Some(m) && acc.len() >= m) {
                                let t = x.skip(p);
                                let kw = header_keyword(x, p)->0;
                                let nm = token_from(x, kw.1)->0;
                                lemma_tail_scan_index(
                                    s,
                                    lines,
                                    idx,
                                    skip_ws(x, nm.1),
                                    0,
                                    false,
                                    Seq::empty(),
                                    idx + 1,
                                    t,
                                );
                                lemma_body_scan_index(s, lines, idx, kind, h.end_index + 1, h.params, true);
                                assert(h.symbol.line == idx + 1);
                                let sv = ScopeView {
                                    symbol: h.symbol,
                                    header_end_line: h.end_index + 1,
                                    end_line: b.0 + 1,
                                    keys: b.1,
                                    complete: b.2,
                                };
                                let acc2 = acc.push(sv);
                                assert(lines_increase(acc2)) by {
                                    assert forall|i: int, j: int| 0 <= i < j < acc2.len() implies #[trigger] acc2[i].symbol.line
                                        < #[trigger] acc2[j].symbol.line by {
                                        if j < acc.len() {
                                            assert(acc2[i] == acc[i] && acc2[j] == acc[j]);
                                        } else {
                                            assert(acc2[i] == acc[i]);
                                        }
                                    }
                                }
                                assert forall|j: int| 0 <= j < acc2.len() implies (#[trigger] acc2[j]).symbol.line <= b.0 + 1 by {
                                    if j < acc.len() {
                                        assert(acc2[j] == acc[j]);
                                    }
                                }
                                lemma_scopes_scan_lines(s, lines, module, b.0 + 1, maximum, acc2);
                            }
                        },
                    },
                },
            }
        }
    }
}

/// Declarations come out in source order: the symbol lines of the scopes of
/// a parsed module strictly increase.
pub proof fn law_declarations_in_line_order(s: Seq<char>, module: Seq<char>, maximum: Option<int>)
    ensures
        parse_module(s, module, maximum) matches Ok(m) ==> lines_increase(m.scopes),
{
    if !(s.len() >= 2 && s[0] == '\u{feff}' && s[1] == '\u{feff}') {
        lemma_scopes_scan_lines(s, source_lines(s), module, 0, maximum, Seq::empty());
    }
}

} // verus!
