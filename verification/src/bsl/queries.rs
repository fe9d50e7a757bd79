//! Extraction of static BSL Query declarations.
//!
//! A query is a local binding inside a known procedure or function whose
//! complete text is given either in a `New Query("...")` / `Новый Запрос("...")`
//! constructor or in one static `.Text = "..."` / `.Текст = "..."` assignment
//! after `New Query`. String literals may continue over physical lines that
//! start with optional blanks and `|`; doubled quotes stand for one quote.

use vstd::prelude::*;

use crate::bsl::lexical::{comment_at, slice_chars};
use crate::bsl::{bsl_name_key, lowercase, to_lowercase};
use crate::text::{
    all_ws, byte_at, chars_of, is_blank, push_char, skip_whitespace, skip_ws, string_of_range, trim,
    trim_range, trim_start, utf8_len, utf8_width, char_width, byte_length, lemma_utf8_len_bound,
    decimal, push_decimal, lex_from, lex_lt, lemma_lex_total, lemma_lex_transitive, lemma_lex_irreflexive,
};
use crate::entity::{EntityId, EntityName};
use crate::bsl::source_map::{
    lemma_cover_push, lemma_projectable_push, line_ok, map_consistent, projectable, segment_end, segment_start,
    segments_cover, DecodedBslSourceMap, DecodedBslSourceSegment, MappedPhysicalLine, RetainedSourceMap,
};

verus! {

// ---------------------------------------------------------------- physical lines

/// Index of the first `\n` at or after `i`, or `s.len()`.
pub open spec fn newline_from(s: Seq<char>, i: int) -> int
    decreases s.len() - i,
{
    if 0 <= i < s.len() && s[i] != '\n' {
        newline_from(s, i + 1)
    } else {
        i
    }
}

pub proof fn lemma_newline_from_bounds(s: Seq<char>, i: int)
    requires
        0 <= i <= s.len(),
    ensures
        i <= newline_from(s, i) <= s.len(),
        newline_from(s, i) < s.len() ==> s[newline_from(s, i)] == '\n',
    decreases s.len() - i,
{
    if i < s.len() && s[i] != '\n' {
        lemma_newline_from_bounds(s, i + 1);
    }
}

/// Physical lines of `s` from `i` on, split at `\n`: content start, content end
/// (before a `\r` that precedes the `\n`) and end of the line ending.
pub open spec fn physical_from(s: Seq<char>, i: int) -> Seq<(int, int, int)>
    decreases s.len() - i,
{
    if i < 0 || i >= s.len() {
        Seq::empty()
    } else {
        let n = newline_from(s, i);
        proof {
            lemma_newline_from_bounds(s, i);
        }
        if n >= s.len() {
            seq![(i, s.len() as int, s.len() as int)]
        } else {
            let content_end = if n > i && s[n - 1] == '\r' { n - 1 } else { n };
            seq![(i, content_end, n + 1)] + physical_from(s, n + 1)
        }
    }
}

/// Physical lines of `s`; an empty source has one empty line. Line `k` has number `k + 1`.
pub open spec fn physical_lines(s: Seq<char>) -> Seq<(int, int, int)> {
    if s.len() == 0 {
        seq![(0, 0, 0)]
    } else {
        physical_from(s, 0)
    }
}

/// The lines `p` as integer triples.
pub open spec fn triples(p: Seq<(usize, usize, usize)>) -> Seq<(int, int, int)> {
    p.map_values(|l: (usize, usize, usize)| (l.0 as int, l.1 as int, l.2 as int))
}

/// Well-formed physical lines of `s`.
pub open spec fn physical_wf(s: Seq<char>, p: Seq<(usize, usize, usize)>) -> bool {
    &&& triples(p) == physical_lines(s)
    &&& forall|k: int| 0 <= k < p.len() ==> (#[trigger] p[k]).0 <= p[k].1 <= p[k].2 <= s.len()
    &&& p.len() <= s.len() + 1
}

pub proof fn lemma_physical_from_shape(s: Seq<char>, i: int)
    requires
        0 <= i,
    ensures
        physical_from(s, i).len() <= s.len() - i || physical_from(s, i).len() == 0,
        forall|k: int|
            0 <= k < physical_from(s, i).len() ==> i <= (#[trigger] physical_from(s, i)[k]).0
                <= physical_from(s, i)[k].1 <= physical_from(s, i)[k].2 <= s.len(),
    decreases s.len() - i,
{
    if i < s.len() {
        let n = newline_from(s, i);
        lemma_newline_from_bounds(s, i);
        if n < s.len() {
            lemma_physical_from_shape(s, n + 1);
            let all = physical_from(s, i);
            let rest = physical_from(s, n + 1);
            assert forall|k: int| 0 <= k < all.len() implies i <= (#[trigger] all[k]).0 <= all[k].1
                <= all[k].2 <= s.len() by {
                if k > 0 {
                    assert(all[k] == rest[k - 1]);
                }
            }
        }
    }
}

/// Returns `physical_lines(s)`.
pub fn collect_physical_lines(s: &[char]) -> (r: Vec<(usize, usize, usize)>)
    ensures
        physical_wf(s@, r@),
{
    let mut out: Vec<(usize, usize, usize)> = Vec::new();
    if s.len() == 0 {
        out.push((0, 0, 0));
        assert(triples(out@) == seq![(0int, 0int, 0int)]);
        return out;
    }
    proof {
        lemma_physical_from_shape(s@, 0);
    }
    let mut start: usize = 0;
    while start < s.len()
        invariant
            start <= s@.len(),
            s@.len() > 0,
            out@.len() <= start,
            triples(out@) + physical_from(s@, start as int) == physical_lines(s@),
            forall|k: int| 0 <= k < out@.len() ==> (#[trigger] out@[k]).0 <= out@[k].1 <= out@[k].2
                <= s@.len(),
        decreases s@.len() - start,
    {
        let mut n = start;
        while n < s.len() && s[n] != '\n'
            invariant
                start <= n <= s@.len(),
                newline_from(s@, n as int) == newline_from(s@, start as int),
            decreases s@.len() - n,
        {
            n = n + 1;
        }
        let ghost before = out@;
        if n >= s.len() {
            out.push((start, s.len(), s.len()));
            assert(triples(out@) == triples(before) + seq![(start as int, s@.len() as int, s@.len() as int)]);
            start = s.len();
        } else {
            let content_end = if n > start && s[n - 1] == '\r' {
                n - 1
            } else {
                n
            };
            out.push((start, content_end, n + 1));
            assert(triples(out@) == triples(before) + seq![(start as int, content_end as int, n + 1)]);
            start = n + 1;
        }
    }
    out
}

// ---------------------------------------------------------------- literals

/// End of the run of spaces and tabs of `s[i..e]`.
pub open spec fn indent_end(s: Seq<char>, i: int, e: int) -> int
    decreases e - i,
{
    if i < e && 0 <= i < s.len() && (s[i] == ' ' || s[i] == '\t') {
        indent_end(s, i + 1, e)
    } else {
        i
    }
}

/// Decodes a string literal whose payload continues at scalar `cursor` of
/// physical line `li`, with `text` decoded so far and the copy pending from
/// `copied`: the decoded text, the index of the closing quote and of its line.
pub open spec fn decode_scan(
    s: Seq<char>,
    p: Seq<(int, int, int)>,
    li: int,
    cursor: int,
    copied: int,
    text: Seq<char>,
) -> Option<(Seq<char>, int, int)>
    decreases p.len() - li, p[li].1 - cursor,
{
    if li < 0 || li >= p.len() || cursor < 0 {
        None
    } else if cursor < p[li].1 {
        if s[cursor] != '"' {
            decode_scan(s, p, li, cursor + 1, copied, text)
        } else {
            let t = text + s.subrange(copied, cursor);
            if cursor + 1 < p[li].1 && s[cursor + 1] == '"' {
                decode_scan(s, p, li, cursor + 2, cursor + 2, t.push('"'))
            } else {
                Some((t, cursor, li))
            }
        }
    } else {
        let t = text + s.subrange(copied, p[li].1);
        if p[li].2 == p[li].1 || li + 1 >= p.len() {
            None
        } else {
            let marker = indent_end(s, p[li + 1].0, p[li + 1].1);
            if !(0 <= marker < s.len() && s[marker] == '|') || marker + 1 > p[li + 1].1 {
                None
            } else {
                decode_scan(s, p, li + 1, marker + 1, marker + 1, t.push('\n'))
            }
        }
    }
}

/// Decodes the literal whose opening quote is scalar `q` on physical line `li`.
pub open spec fn decode_literal(s: Seq<char>, p: Seq<(int, int, int)>, li: int, q: int) -> Option<
    (Seq<char>, int, int),
> {
    if !(0 <= q < s.len() && s[q] == '"') || !(0 <= li < p.len()) || q + 1 > p[li].1 {
        None
    } else {
        decode_scan(s, p, li, q + 1, q + 1, Seq::empty())
    }
}

/// Source map view: segments and mapped lines.
pub type MapView = (Seq<DecodedBslSourceSegment>, Seq<MappedPhysicalLine>);

/// The copied segment of `s[from..to]` at decoded offset `tlen`, when it is
/// not empty.
pub open spec fn copied_segments(tlen: int, from: int, to: int) -> Seq<DecodedBslSourceSegment> {
    if from < to {
        seq![
            DecodedBslSourceSegment::Copied {
                decoded_start: tlen as usize,
                decoded_end: (tlen + (to - from)) as usize,
                source_start: from as usize,
                source_end: to as usize,
            },
        ]
    } else {
        Seq::empty()
    }
}

/// The mapped record of physical line `k`, whose payload starts at
/// `payload` after the marker `marker`.
pub open spec fn mapped_line(p: Seq<(int, int, int)>, k: int, marker: Option<usize>, payload: int) -> MappedPhysicalLine {
    MappedPhysicalLine {
        line_number: (k + 1) as usize,
        raw_content_start: p[k].0 as usize,
        raw_content_end: p[k].1 as usize,
        line_ending_start: p[k].1 as usize,
        line_ending_end: p[k].2 as usize,
        marker_offset: marker,
        payload_start_offset: payload as usize,
    }
}

/// The source map that `decode_scan` builds alongside the decoded text,
/// where `tlen` scalars are decoded so far and `segs` and `lines` are the map
/// so far: copied runs, collapsed quotes and inserted line feeds as segments,
/// and a record for each continuation line.
pub open spec fn decode_map_scan(
    s: Seq<char>,
    p: Seq<(int, int, int)>,
    li: int,
    cursor: int,
    copied: int,
    tlen: int,
    segs: Seq<DecodedBslSourceSegment>,
    lines: Seq<MappedPhysicalLine>,
) -> MapView
    decreases p.len() - li, p[li].1 - cursor,
{
    if li < 0 || li >= p.len() || cursor < 0 {
        (segs, lines)
    } else if cursor < p[li].1 {
        if s[cursor] != '"' {
            decode_map_scan(s, p, li, cursor + 1, copied, tlen, segs, lines)
        } else {
            let segs1 = segs + copied_segments(tlen, copied, cursor);
            let tlen1 = tlen + (cursor - copied);
            if cursor + 1 < p[li].1 && s[cursor + 1] == '"' {
                decode_map_scan(
                    s,
                    p,
                    li,
                    cursor + 2,
                    cursor + 2,
                    tlen1 + 1,
                    segs1.push(
                        DecodedBslSourceSegment::CollapsedQuote {
                            decoded_start: tlen1 as usize,
                            decoded_end: (tlen1 + 1) as usize,
                            source_start: cursor as usize,
                            source_end: (cursor + 2) as usize,
                        },
                    ),
                    lines,
                )
            } else {
                (segs1, lines)
            }
        }
    } else {
        let segs1 = segs + copied_segments(tlen, copied, p[li].1);
        let tlen1 = tlen + (p[li].1 - copied);
        if p[li].2 == p[li].1 || li + 1 >= p.len() {
            (segs1, lines)
        } else {
            let marker = indent_end(s, p[li + 1].0, p[li + 1].1);
            if !(0 <= marker < s.len() && s[marker] == '|') || marker + 1 > p[li + 1].1 {
                (segs1, lines)
            } else {
                decode_map_scan(
                    s,
                    p,
                    li + 1,
                    marker + 1,
                    marker + 1,
                    tlen1 + 1,
                    segs1.push(
                        DecodedBslSourceSegment::InsertedLf {
                            decoded_start: tlen1 as usize,
                            decoded_end: (tlen1 + 1) as usize,
                            previous_line_ending_start: p[li].1 as usize,
                            previous_line_ending_end: p[li].2 as usize,
                            next_indentation_and_marker_start: p[li + 1].0 as usize,
                            next_indentation_and_marker_end: (marker + 1) as usize,
                        },
                    ),
                    lines.push(mapped_line(p, li + 1, Some(marker as usize), marker + 1)),
                )
            }
        }
    }
}

/// The source map of the literal whose opening quote is scalar `q` on
/// physical line `li`.
pub open spec fn decode_literal_map(s: Seq<char>, p: Seq<(int, int, int)>, li: int, q: int) -> MapView {
    decode_map_scan(s, p, li, q + 1, q + 1, 0, Seq::empty(), seq![mapped_line(p, li, None, q + 1)])
}

pub proof fn lemma_decode_scan_result(
    s: Seq<char>,
    p: Seq<(int, int, int)>,
    li: int,
    cursor: int,
    copied: int,
    text: Seq<char>,
)
    ensures
        decode_scan(s, p, li, cursor, copied, text) matches Some(r) ==> li <= r.2 < p.len() && 0
            <= r.1 < p[r.2].1,
    decreases p.len() - li, p[li].1 - cursor,
{
    if li < 0 || li >= p.len() || cursor < 0 {
    } else if cursor < p[li].1 {
        if s[cursor] != '"' {
            lemma_decode_scan_result(s, p, li, cursor + 1, copied, text);
        } else {
            let t = text + s.subrange(copied, cursor);
            if cursor + 1 < p[li].1 && s[cursor + 1] == '"' {
                lemma_decode_scan_result(s, p, li, cursor + 2, cursor + 2, t.push('"'));
            }
        }
    } else {
        let t = text + s.subrange(copied, p[li].1);
        if !(p[li].2 == p[li].1 || li + 1 >= p.len()) {
            let marker = indent_end(s, p[li + 1].0, p[li + 1].1);
            if (0 <= marker < s.len() && s[marker] == '|') && marker + 1 <= p[li + 1].1 {
                lemma_decode_scan_result(s, p, li + 1, marker + 1, marker + 1, t.push('\n'));
            }
        }
    }
}

/// Appends `s[from..to]` to `text`.
fn push_range(text: &mut Vec<char>, s: &[char], from: usize, to: usize)
    requires
        from <= to <= s@.len(),
    ensures
        final(text)@ == old(text)@ + s@.subrange(from as int, to as int),
{
    let mut i = from;
    while i < to
        invariant
            from <= i <= to <= s@.len(),
            text@ == old(text)@ + s@.subrange(from as int, i as int),
        decreases to - i,
    {
        text.push(s[i]);
        i = i + 1;
        assert(text@ == old(text)@ + s@.subrange(from as int, i as int));
    }
}

/// Appends `s[from..to]` to `text`, with a copied segment when it is not
/// empty.
fn push_copied(
    text: &mut Vec<char>,
    segs: &mut Vec<DecodedBslSourceSegment>,
    s: &[char],
    from: usize,
    to: usize,
)
    requires
        from <= to <= s@.len(),
        segments_cover(old(segs)@, old(text)@.len() as int, s@.len() as int),
        s@.len() < usize::MAX ==> projectable(old(segs)@),
    ensures
        final(text)@ == old(text)@ + s@.subrange(from as int, to as int),
        final(segs)@ == old(segs)@ + copied_segments(old(text)@.len() as int, from as int, to as int),
        segments_cover(final(segs)@, final(text)@.len() as int, s@.len() as int),
        s@.len() < usize::MAX ==> projectable(final(segs)@),
{
    if from < to {
        let ds = text.len();
        push_range(text, s, from, to);
        let g = DecodedBslSourceSegment::Copied {
            decoded_start: ds,
            decoded_end: text.len(),
            source_start: from,
            source_end: to,
        };
        proof {
            lemma_cover_push(segs@, g, ds as int, text@.len() as int, s@.len() as int);
            if s@.len() < usize::MAX {
                lemma_projectable_push(segs@, g);
            }
        }
        segs.push(g);
        assert(segs@ =~= old(segs)@ + copied_segments(old(text)@.len() as int, from as int, to as int));
    } else {
        assert(s@.subrange(from as int, to as int) =~= Seq::<char>::empty());
        assert(text@ =~= old(text)@ + s@.subrange(from as int, to as int));
        assert(segs@ =~= old(segs)@ + copied_segments(old(text)@.len() as int, from as int, to as int));
    }
}

/// Appends the quote that the doubled quote at `at` stands for.
fn push_collapsed_quote(text: &mut Vec<char>, segs: &mut Vec<DecodedBslSourceSegment>, s: &[char], at: usize)
    requires
        at + 2 <= s@.len(),
        segments_cover(old(segs)@, old(text)@.len() as int, s@.len() as int),
        s@.len() < usize::MAX ==> projectable(old(segs)@),
    ensures
        final(text)@ == old(text)@.push('"'),
        final(segs)@ == old(segs)@.push(
            DecodedBslSourceSegment::CollapsedQuote {
                decoded_start: old(text)@.len() as usize,
                decoded_end: (old(text)@.len() + 1) as usize,
                source_start: at,
                source_end: (at + 2) as usize,
            },
        ),
        segments_cover(final(segs)@, final(text)@.len() as int, s@.len() as int),
        s@.len() < usize::MAX ==> projectable(final(segs)@),
{
    let n = s.len();
    let ds = text.len();
    text.push('"');
    let g = DecodedBslSourceSegment::CollapsedQuote {
        decoded_start: ds,
        decoded_end: text.len(),
        source_start: at,
        source_end: at + 2,
    };
    proof {
        lemma_cover_push(segs@, g, ds as int, text@.len() as int, s@.len() as int);
        if s@.len() < usize::MAX {
            lemma_projectable_push(segs@, g);
        }
    }
    segs.push(g);
}

/// Appends the line feed that a line ending and the next line's marker stand
/// for.
fn push_inserted_lf(
    text: &mut Vec<char>,
    segs: &mut Vec<DecodedBslSourceSegment>,
    s: &[char],
    ending_start: usize,
    ending_end: usize,
    marker_start: usize,
    marker_end: usize,
)
    requires
        ending_start < ending_end <= s@.len(),
        marker_start < marker_end <= s@.len(),
        segments_cover(old(segs)@, old(text)@.len() as int, s@.len() as int),
        s@.len() < usize::MAX ==> projectable(old(segs)@),
    ensures
        final(text)@ == old(text)@.push('\n'),
        final(segs)@ == old(segs)@.push(
            DecodedBslSourceSegment::InsertedLf {
                decoded_start: old(text)@.len() as usize,
                decoded_end: (old(text)@.len() + 1) as usize,
                previous_line_ending_start: ending_start,
                previous_line_ending_end: ending_end,
                next_indentation_and_marker_start: marker_start,
                next_indentation_and_marker_end: marker_end,
            },
        ),
        segments_cover(final(segs)@, final(text)@.len() as int, s@.len() as int),
        s@.len() < usize::MAX ==> projectable(final(segs)@),
{
    let ds = text.len();
    text.push('\n');
    let g = DecodedBslSourceSegment::InsertedLf {
        decoded_start: ds,
        decoded_end: text.len(),
        previous_line_ending_start: ending_start,
        previous_line_ending_end: ending_end,
        next_indentation_and_marker_start: marker_start,
        next_indentation_and_marker_end: marker_end,
    };
    proof {
        lemma_cover_push(segs@, g, ds as int, text@.len() as int, s@.len() as int);
        if s@.len() < usize::MAX {
            lemma_projectable_push(segs@, g);
        }
    }
    segs.push(g);
}

/// Line `k` of a literal's mapped lines is physical line `li + k`.
pub open spec fn lines_numbered(lines: Seq<MappedPhysicalLine>, li: int) -> bool {
    forall|k: int| 0 <= k < lines.len() ==> #[trigger] lines[k].line_number == li + k + 1
}

/// Returns `decode_literal(s, p, li, q)` with the literal's source map: its
/// segments cover the decoded text, its lines are the physical lines from
/// `li` to the closing quote's, and the map is consistent with the text and
/// the source when the quote lies at or after the start of line `li`.
fn decode_static_string_literal(s: &[char], p: &Vec<(usize, usize, usize)>, li: usize, q: usize) -> (r:
    Option<(Vec<char>, usize, usize, DecodedBslSourceMap)>)
    requires
        physical_wf(s@, p@),
    ensures
        match r {
            Some((t, c, l, m)) => {
                &&& decode_literal(s@, triples(p@), li as int, q as int) == Some((t@, c as int, l as int))
                &&& (p@[li as int].0 <= q ==> map_consistent(m@.0, m@.1, t@.len() as int, s@.len() as int))
                &&& (s@.len() < usize::MAX ==> projectable(m@.0))
                &&& m@.1.len() == l - li + 1
                &&& lines_numbered(m@.1, li as int)
                &&& m@ == decode_literal_map(s@, triples(p@), li as int, q as int)
            },
            None => decode_literal(s@, triples(p@), li as int, q as int) is None,
        },
{
    let ghost tp = triples(p@);
    if !(q < s.len() && s[q] == '"') || li >= p.len() {
        return None;
    }
    assert(tp[li as int] == (p@[li as int].0 as int, p@[li as int].1 as int, p@[li as int].2 as int));
    if q + 1 > p[li].1 {
        return None;
    }
    let ghost target = decode_scan(s@, tp, li as int, q + 1, q + 1, Seq::empty());
    let ghost first_ok = p@[li as int].0 <= q;
    let ghost target_map = decode_literal_map(s@, tp, li as int, q as int);
    let mut text: Vec<char> = Vec::new();
    let mut segs: Vec<DecodedBslSourceSegment> = Vec::new();
    let mut lines: Vec<MappedPhysicalLine> = Vec::new();
    let (first_start, first_end, first_ending) = p[li];
    lines.push(
        MappedPhysicalLine {
            line_number: li + 1,
            raw_content_start: first_start,
            raw_content_end: first_end,
            line_ending_start: first_end,
            line_ending_end: first_ending,
            marker_offset: None,
            payload_start_offset: q + 1,
        },
    );
    assert(lines@ == seq![mapped_line(tp, li as int, None, q + 1)]);
    assert(segs@ == Seq::<DecodedBslSourceSegment>::empty());
    let mut line = li;
    let mut cursor = q + 1;
    let mut copied = q + 1;
    loop
        invariant
            physical_wf(s@, p@),
            tp == triples(p@),
            li <= line < p@.len(),
            copied <= cursor <= p@[line as int].1,
            target == decode_scan(s@, tp, li as int, q + 1, q + 1, Seq::empty()),
            decode_scan(s@, tp, line as int, cursor as int, copied as int, text@) == target,
            decode_literal(s@, tp, li as int, q as int) == target,
            segments_cover(segs@, text@.len() as int, s@.len() as int),
            s@.len() < usize::MAX ==> projectable(segs@),
            lines@.len() == line - li + 1,
            lines_numbered(lines@, li as int),
            first_ok == (p@[li as int].0 <= q),
            forall|k: int| #![trigger lines@[k]] 0 <= k < lines@.len() && (k > 0 || first_ok) ==> line_ok(lines@[k], s@.len() as int),
            target_map == decode_literal_map(s@, tp, li as int, q as int),
            decode_map_scan(s@, tp, line as int, cursor as int, copied as int, text@.len() as int, segs@, lines@)
                == target_map,
        decreases p@.len() - line,
    {
        assert(tp[line as int] == (p@[line as int].0 as int, p@[line as int].1 as int, p@[line as int].2 as int));
        let (_, content_end, ending_end) = p[line];
        while cursor < content_end
            invariant
                physical_wf(s@, p@),
                tp == triples(p@),
                line < p@.len(),
                content_end == p@[line as int].1,
                tp[line as int].1 == content_end as int,
                copied <= cursor <= content_end,
                decode_scan(s@, tp, line as int, cursor as int, copied as int, text@) == target,
                decode_literal(s@, tp, li as int, q as int) == target,
                segments_cover(segs@, text@.len() as int, s@.len() as int),
                s@.len() < usize::MAX ==> projectable(segs@),
                lines@.len() == line - li + 1,
                lines_numbered(lines@, li as int),
                first_ok == (p@[li as int].0 <= q),
                forall|k: int| #![trigger lines@[k]] 0 <= k < lines@.len() && (k > 0 || first_ok) ==> line_ok(lines@[k], s@.len() as int),
                target_map == decode_literal_map(s@, tp, li as int, q as int),
                decode_map_scan(s@, tp, line as int, cursor as int, copied as int, text@.len() as int, segs@, lines@)
                    == target_map,
            decreases content_end - cursor,
        {
            if s[cursor] != '"' {
                cursor = cursor + 1;
                continue;
            }
            push_copied(&mut text, &mut segs, s, copied, cursor);
            if cursor + 1 < content_end && s[cursor + 1] == '"' {
                push_collapsed_quote(&mut text, &mut segs, s, cursor);
                cursor = cursor + 2;
                copied = cursor;
                continue;
            }
            let map = DecodedBslSourceMap::from_parts(segs, lines);
            return Some((text, cursor, line, map));
        }
        push_copied(&mut text, &mut segs, s, copied, content_end);
        let count = p.len();
        if ending_end == content_end || line >= count - 1 {
            return None;
        }
        let next = line + 1;
        assert(tp[next as int] == (p@[next as int].0 as int, p@[next as int].1 as int, p@[next as int].2 as int));
        let (next_start, next_end, next_ending) = p[next];
        let mut marker = next_start;
        while marker < next_end && marker < s.len() && (s[marker] == ' ' || s[marker] == '\t')
            invariant
                next_start <= marker <= next_end,
                indent_end(s@, marker as int, next_end as int) == indent_end(s@, next_start as int, next_end as int),
            decreases next_end - marker,
        {
            marker = marker + 1;
        }
        if !(marker < s.len() && s[marker] == '|') || marker + 1 > next_end {
            return None;
        }
        push_inserted_lf(&mut text, &mut segs, s, content_end, ending_end, next_start, marker + 1);
        let ghost before = lines@;
        lines.push(
            MappedPhysicalLine {
                line_number: next + 1,
                raw_content_start: next_start,
                raw_content_end: next_end,
                line_ending_start: next_end,
                line_ending_end: next_ending,
                marker_offset: Some(marker),
                payload_start_offset: marker + 1,
            },
        );
        assert(lines@ == before.push(mapped_line(tp, next as int, Some(marker), marker + 1)));
        assert forall|k: int| #![trigger lines@[k]] 0 <= k < lines@.len() && (k > 0 || first_ok) implies line_ok(
            lines@[k],
            s@.len() as int,
        ) by {
            if k < before.len() {
                assert(lines@[k] == before[k]);
            }
        }
        assert(lines_numbered(lines@, li as int)) by {
            assert forall|k: int| 0 <= k < lines@.len() implies #[trigger] lines@[k].line_number == li + k + 1 by {
                if k < before.len() {
                    assert(lines@[k] == before[k]);
                }
            }
        }
        line = next;
        cursor = marker + 1;
        copied = marker + 1;
    }
}

// ---------------------------------------------------------------- statements

/// Index of the first `c` of `t` at or after `i`, or `-1`.
pub open spec fn find_char(t: Seq<char>, c: char, i: int) -> int
    decreases t.len() - i,
{
    if i < 0 || i >= t.len() {
        -1
    } else if t[i] == c {
        i
    } else {
        find_char(t, c, i + 1)
    }
}

/// Index of the first occurrence of `n` in `h` at or after `i`, or `-1`.
pub open spec fn find_sub(h: Seq<char>, n: Seq<char>, i: int) -> int
    decreases h.len() + 1 - i,
{
    if i < 0 || i + n.len() > h.len() {
        -1
    } else if h.subrange(i, i + n.len()) == n {
        i
    } else {
        find_sub(h, n, i + 1)
    }
}

/// `lowercase(t)` starts with `kw`.
pub open spec fn lower_starts_with(t: Seq<char>, kw: Seq<char>) -> bool {
    lowercase(t).len() >= kw.len() && lowercase(t).take(kw.len() as int) == kw
}

/// First scalar index of `t` from `c` on whose UTF-8 offset reaches `n` bytes.
pub open spec fn cut_from(t: Seq<char>, c: int, n: int) -> int
    decreases t.len() - c,
{
    if c < 0 || c >= t.len() || byte_at(t, c) >= n {
        c
    } else {
        cut_from(t, c + 1, n)
    }
}

/// `t` without its first `n` UTF-8 bytes.
pub open spec fn skip_bytes(t: Seq<char>, n: int) -> Seq<char> {
    t.skip(cut_from(t, 0, n))
}

/// `value` trimmed, without one trailing `;`, trimmed again.
pub open spec fn strip_statement_end(value: Seq<char>) -> Seq<char> {
    let w = trim(value);
    if w.len() > 0 && w.last() == ';' {
        trim(w.drop_last())
    } else {
        w
    }
}

/// A procedure or function whose body may declare queries.
pub struct QueryScopeView {
    pub owner_id: Seq<char>,
    pub owner_name: Seq<char>,
}

/// Abstract value of a query-extraction error.
pub enum QueryErrorView {
    InvalidName(int),
    InvalidIdentifier(int),
    MalformedScope { line: int, text: Seq<char> },
}

/// Declaration keyword of a line starting a scope and the kind it declares.
pub open spec fn scope_keyword(t: Seq<char>) -> Option<(Seq<char>, Seq<char>)> {
    if lower_starts_with(t, "procedure"@) {
        Some(("procedure"@, "procedure"@))
    } else if lower_starts_with(t, "процедура"@) {
        Some(("процедура"@, "procedure"@))
    } else if lower_starts_with(t, "function"@) {
        Some(("function"@, "function"@))
    } else if lower_starts_with(t, "функция"@) {
        Some(("функция"@, "function"@))
    } else {
        None
    }
}

/// The scope started by the trimmed line `t` (number `number`), if any: its
/// owner is named by the text between the keyword and the first `(`.
pub open spec fn scope_start(module: Seq<char>, t: Seq<char>, number: int) -> Result<
    Option<QueryScopeView>,
    QueryErrorView,
> {
    match scope_keyword(t) {
        None => Ok(None),
        Some(kw) => {
            let rem = trim_start(skip_bytes(t, utf8_len(kw.0) as int));
            let open = find_char(rem, '(', 0);
            if open < 0 {
                Err(QueryErrorView::MalformedScope { line: number, text: t })
            } else {
                let raw = trim(rem.take(open));
                let owner_id = module + ":"@ + kw.1 + ":"@ + raw;
                if raw.len() == 0 {
                    Err(QueryErrorView::MalformedScope { line: number, text: t })
                } else if all_ws(raw) {
                    Err(QueryErrorView::InvalidName(number))
                } else if all_ws(owner_id) {
                    Err(QueryErrorView::InvalidIdentifier(number))
                } else {
                    Ok(Some(QueryScopeView { owner_id, owner_name: raw }))
                }
            }
        },
    }
}

/// The declaration keywords in lowercase, each with the kind of scope it
/// opens: `procedure` and `процедура` open procedures, `function` and
/// `функция` functions.
pub open spec fn declaration_keyword(kw: Seq<char>, kind: Seq<char>) -> bool {
    ||| kw == "procedure"@ && kind == "procedure"@
    ||| kw == "процедура"@ && kind == "procedure"@
    ||| kw == "function"@ && kind == "function"@
    ||| kw == "функция"@ && kind == "function"@
}

/// A line that starts, in lowercase, with a declaration keyword opens a scope
/// of that keyword's kind (or is malformed): it is never taken for an
/// ordinary line, and the owner's identifier is the module, the kind and the
/// owner's name joined by `:`.
pub proof fn law_declaration_keywords_open_scopes(
    module: Seq<char>,
    t: Seq<char>,
    number: int,
    kw: Seq<char>,
    kind: Seq<char>,
)
    requires
        declaration_keyword(kw, kind),
        lower_starts_with(t, kw),
    ensures
        !(scope_start(module, t, number) matches Ok(None)),
        scope_start(module, t, number) matches Ok(Some(sc)) ==> sc.owner_id == module + ":"@ + kind + ":"@
            + sc.owner_name,
{
    reveal_strlit("procedure");
    reveal_strlit("процедура");
    reveal_strlit("function");
    reveal_strlit("функция");
    let l = lowercase(t);
    assert(l[0] == kw[0]) by {
        assert(l.take(kw.len() as int)[0] == kw[0]);
    }
    if lower_starts_with(t, "procedure"@) {
        assert(l[0] == "procedure"@[0]) by {
            assert(l.take(9)[0] == "procedure"@[0]);
        }
    } else if lower_starts_with(t, "процедура"@) {
        assert(l[0] == "процедура"@[0]) by {
            assert(l.take(9)[0] == "процедура"@[0]);
        }
    } else if lower_starts_with(t, "function"@) {
        assert(l[0] == "function"@[0]) by {
            assert(l.take(8)[0] == "function"@[0]);
        }
    }
}

/// A line that starts, in lowercase, with none of the declaration keywords
/// opens no scope.
pub proof fn law_other_lines_open_no_scope(module: Seq<char>, t: Seq<char>, number: int)
    requires
        forall|kw: Seq<char>, kind: Seq<char>| declaration_keyword(kw, kind) ==> !lower_starts_with(t, kw),
    ensures
        scope_start(module, t, number) matches Ok(None),
{
    assert(declaration_keyword("procedure"@, "procedure"@));
    assert(declaration_keyword("процедура"@, "procedure"@));
    assert(declaration_keyword("function"@, "function"@));
    assert(declaration_keyword("функция"@, "function"@));
}

/// The trimmed line `t` ends a scope.
pub open spec fn scope_end(t: Seq<char>) -> bool {
    let l = lowercase(trim(t));
    l == "endprocedure"@ || l == "конецпроцедуры"@ || l == "endfunction"@ || l == "конецфункции"@
}

/// Position of the `=` of an assignment whose sides are not blank.
pub open spec fn assignment_split(t: Seq<char>) -> Option<int> {
    let eq = find_char(t, '=', 0);
    if eq < 0 || trim(t.take(eq)).len() == 0 || trim(t.skip(eq + 1)).len() == 0 {
        None
    } else {
        Some(eq)
    }
}

/// A parsed query statement: binding, decoded text if static, last line used.
pub struct StatementView {
    pub binding: Seq<char>,
    pub text: Option<Seq<char>>,
    pub last: int,
    pub map: Option<MapView>,
}

/// `Binding = New Query` or `Binding = New Query("...")` on the trimmed line `t`
/// of physical line `li`, whose first scalar is scalar `base` of `s`.
pub open spec fn constructor(
    s: Seq<char>,
    p: Seq<(int, int, int)>,
    li: int,
    t: Seq<char>,
    base: int,
) -> Option<StatementView> {
    match assignment_split(t) {
        None => None,
        Some(eq) => {
            let left = t.take(eq);
            let right = t.skip(eq + 1);
            let binding = trim(left);
            let cons = strip_statement_end(trim(right));
            let prefix = if lower_starts_with(cons, "new query"@) {
                Some("new query"@)
            } else if lower_starts_with(cons, "новый запрос"@) {
                Some("новый запрос"@)
            } else {
                None
            };
            if find_char(left, '.', 0) >= 0 || all_ws(binding) || prefix is None {
                None
            } else {
                let rem = trim(skip_bytes(cons, utf8_len(prefix->0) as int));
                if rem.len() == 0 {
                    Some(StatementView { binding, text: None, last: li, map: None })
                } else if rem[0] != '(' || find_sub(right, rem, 0) < 0 {
                    None
                } else {
                    let after = rem.skip(1);
                    let at = trim_start(after);
                    if !(at.len() > 0 && at[0] == '"') {
                        None
                    } else {
                        let q = base + eq + 1 + find_sub(right, rem, 0) + 1 + (after.len() - at.len());
                        match decode_literal(s, p, li, q) {
                            None => None,
                            Some(lit) => if strip_statement_end(s.subrange(lit.1 + 1, p[lit.2].1))
                                == seq![')'] {
                                Some(StatementView { binding, text: Some(lit.0), last: lit.2, map: Some(decode_literal_map(s, p, li, q)) })
                            } else {
                                None
                            },
                        }
                    }
                }
            }
        },
    }
}

/// `Binding.Text = ...` (or `.Текст`) on the trimmed line `t`; the text is known
/// only for a static literal followed by nothing but `;`.
pub open spec fn text_assignment(
    s: Seq<char>,
    p: Seq<(int, int, int)>,
    li: int,
    t: Seq<char>,
    base: int,
) -> Option<StatementView> {
    match assignment_split(t) {
        None => None,
        Some(eq) => {
            let left = t.take(eq);
            let right = t.skip(eq + 1);
            let d = find_char(left, '.', 0);
            let property = lowercase(trim(left.skip(d + 1)));
            let binding = trim(left.take(d));
            if d < 0 || !(property == "text"@ || property == "текст"@) || all_ws(binding) {
                None
            } else {
                let value = trim_start(right);
                if value.len() > 0 && value[0] == '"' {
                    let q = base + eq + 1 + (right.len() - value.len());
                    match decode_literal(s, p, li, q) {
                        Some(lit) => if strip_statement_end(s.subrange(lit.1 + 1, p[lit.2].1)).len()
                            == 0 {
                            Some(StatementView { binding, text: Some(lit.0), last: lit.2, map: Some(decode_literal_map(s, p, li, q)) })
                        } else {
                            Some(StatementView { binding, text: None, last: li, map: None })
                        },
                        None => Some(StatementView { binding, text: None, last: li, map: None }),
                    }
                } else {
                    Some(StatementView { binding, text: None, last: li, map: None })
                }
            }
        },
    }
}

/// Returns `find_char(t, c, 0)` as an optional index.
fn find_char_in(t: &[char], c: char) -> (r: Option<usize>)
    ensures
        match r {
            Some(i) => find_char(t@, c, 0) == i as int && i < t@.len(),
            None => find_char(t@, c, 0) == -1,
        },
{
    let mut i: usize = 0;
    while i < t.len()
        invariant
            i <= t@.len(),
            find_char(t@, c, i as int) == find_char(t@, c, 0),
        decreases t@.len() - i,
    {
        if t[i] == c {
            return Some(i);
        }
        i = i + 1;
    }
    None
}

/// Returns `find_sub(h, n, 0)` as an optional index.
fn find_sub_in(h: &[char], n: &[char]) -> (r: Option<usize>)
    ensures
        match r {
            Some(i) => find_sub(h@, n@, 0) == i as int && i + n@.len() <= h@.len(),
            None => find_sub(h@, n@, 0) == -1,
        },
{
    if n.len() > h.len() {
        return None;
    }
    let last = h.len() - n.len();
    let hl = h.len();
    let mut i: usize = 0;
    while i <= last
        invariant
            hl == h@.len(),
            last == h@.len() - n@.len(),
            i <= last + 1,
            find_sub(h@, n@, i as int) == find_sub(h@, n@, 0),
        decreases last + 1 - i,
    {
        let mut j: usize = 0;
        while j < n.len() && h[i + j] == n[j]
            invariant
                hl == h@.len(),
                i <= last,
                last == h@.len() - n@.len(),
                j <= n@.len(),
                forall|k: int| 0 <= k < j ==> h@[i + k] == n@[k],
            decreases n@.len() - j,
        {
            j = j + 1;
        }
        if j == n.len() {
            assert(h@.subrange(i as int, i + n@.len()) =~= n@);
            return Some(i);
        }
        assert(h@.subrange(i as int, i + n@.len())[j as int] != n@[j as int]);
        if i == last {
            assert(find_sub(h@, n@, i + 1) == -1);
            return None;
        }
        i = i + 1;
    }
    None
}

/// Returns `lower_starts_with(t, kw)`.
fn lower_starts_with_in(t: &[char], kw: &str) -> (r: bool)
    ensures
        r == lower_starts_with(t@, kw@),
{
    let text = string_of_range(t, 0, t.len());
    assert(t@.subrange(0, t@.len() as int) == t@);
    let lower = to_lowercase(text.as_str());
    let l = chars_of(lower.as_str());
    let k = chars_of(kw);
    if l.len() < k.len() {
        return false;
    }
    let mut i: usize = 0;
    while i < k.len()
        invariant
            i <= k@.len() <= l@.len(),
            l@ == lowercase(t@),
            k@ == kw@,
            forall|j: int| 0 <= j < i ==> l@[j] == k@[j],
        decreases k@.len() - i,
    {
        if l[i] != k[i] {
            assert(l@.take(k@.len() as int)[i as int] != k@[i as int]);
            return false;
        }
        i = i + 1;
    }
    assert(l@.take(k@.len() as int) =~= k@);
    true
}

/// Returns `skip_bytes(t, n)`.
fn skip_bytes_of(t: &[char], n: usize) -> (r: Vec<char>)
    requires
        n <= 64,
    ensures
        r@ == skip_bytes(t@, n as int),
{
    let mut c: usize = 0;
    let mut b: usize = 0;
    assert(t@.take(0) =~= Seq::<char>::empty());
    while c < t.len() && b < n
        invariant
            c <= t@.len(),
            b as int == byte_at(t@, c as int),
            b < n + 4,
            n <= 64,
            cut_from(t@, c as int, n as int) == cut_from(t@, 0, n as int),
        decreases t@.len() - c,
    {
        assert(t@.take(c + 1).drop_last() == t@.take(c as int));
        b = b + char_width(t[c]);
        c = c + 1;
    }
    slice_chars(t, c, t.len())
}

/// Returns `strip_statement_end(v)`.
fn strip_statement_end_of(v: &[char]) -> (r: Vec<char>)
    ensures
        r@ == strip_statement_end(v@),
{
    let (a, b) = trim_range(v);
    let w = slice_chars(v, a, b);
    if w.len() > 0 && w[w.len() - 1] == ';' {
        let inner = slice_chars(&w, 0, w.len() - 1);
        assert(inner@ == w@.drop_last());
        let (c, d) = trim_range(&inner);
        slice_chars(&inner, c, d)
    } else {
        w
    }
}

/// Returns the trimmed scalars of `v` (`trim(v)`).
fn trimmed_chars(v: &[char]) -> (r: Vec<char>)
    ensures
        r@ == trim(v@),
{
    let (a, b) = trim_range(v);
    slice_chars(v, a, b)
}

/// Returns `trim_start(v)`.
fn trim_start_chars(v: &[char]) -> (r: Vec<char>)
    ensures
        r@ == trim_start(v@),
{
    let k = skip_whitespace(v, 0);
    slice_chars(v, k, v.len())
}

/// Returns whether `lowercase(v)` is one of `a`, `b`, `c`, `d`.
fn lower_is_one_of(v: &[char], a: &str, b: &str, c: &str, d: &str) -> (r: bool)
    ensures
        r == (lowercase(v@) == a@ || lowercase(v@) == b@ || lowercase(v@) == c@ || lowercase(v@) == d@),
{
    let text = string_of_range(v, 0, v.len());
    assert(v@.subrange(0, v@.len() as int) == v@);
    let lower = to_lowercase(text.as_str());
    crate::text::text_equal(lower.as_str(), a) || crate::text::text_equal(lower.as_str(), b)
        || crate::text::text_equal(lower.as_str(), c) || crate::text::text_equal(
        lower.as_str(),
        d,
    )
}

/// Returns the UTF-8 length of a short keyword.
fn keyword_bytes(kw: &str) -> (r: usize)
    requires
        kw@.len() <= 16,
    ensures
        r as int == utf8_len(kw@),
        r <= 64,
{
    proof {
        lemma_utf8_len_bound(kw@);
    }
    byte_length(kw)
}

/// The view of an optional source map.
pub open spec fn map_view_opt(m: Option<DecodedBslSourceMap>) -> Option<MapView> {
    match m {
        Some(x) => Some(x@),
        None => None,
    }
}

/// The view of an optional decoded text.
pub open spec fn text_view(t: Option<Vec<char>>) -> Option<Seq<char>> {
    match t {
        Some(v) => Some(v@),
        None => None,
    }
}

/// A procedure or function whose body may declare queries.
pub struct BslQueryScope {
    owner_id: EntityId,
    owner_name: EntityName,
}

impl View for BslQueryScope {
    type V = QueryScopeView;

    closed spec fn view(&self) -> QueryScopeView {
        QueryScopeView { owner_id: self.owner_id@, owner_name: self.owner_name@ }
    }
}

/// Abstract value of an error.
pub open spec fn query_error_view(e: BslQueryError) -> QueryErrorView {
    match e {
        BslQueryError::InvalidName(line) => QueryErrorView::InvalidName(line as int),
        BslQueryError::InvalidIdentifier(line) => QueryErrorView::InvalidIdentifier(line as int),
        BslQueryError::MalformedScope { line, text } => QueryErrorView::MalformedScope {
            line: line as int,
            text: text@,
        },
    }
}

/// Error produced while extracting static BSL query declarations.
#[derive(Debug, Clone, PartialEq, Eq)]
pub enum BslQueryError {
    /// A query or scope name could not be represented.
    InvalidName(usize),
    /// A query or owner identifier could not be represented.
    InvalidIdentifier(usize),
    /// A procedure or function declaration is malformed.
    MalformedScope {
        /// One-based source line.
        line: usize,
        /// The source text of the line.
        text: String,
    },
}

impl View for BslQueryError {
    type V = QueryErrorView;

    open spec fn view(&self) -> QueryErrorView {
        query_error_view(*self)
    }
}

/// Returns `scope_start(module_id, t, number)`.
fn parse_scope_start(module_id: &EntityId, t: &[char], number: usize) -> (r: Result<
    Option<BslQueryScope>,
    BslQueryError,
>)
    ensures
        match r {
            Ok(None) => scope_start(module_id@, t@, number as int) == Ok::<
                Option<QueryScopeView>,
                QueryErrorView,
            >(None),
            Ok(Some(sc)) => scope_start(module_id@, t@, number as int) == Ok::<
                Option<QueryScopeView>,
                QueryErrorView,
            >(Some(sc@)),
            Err(e) => scope_start(module_id@, t@, number as int) == Err::<
                Option<QueryScopeView>,
                QueryErrorView,
            >(e@),
        },
{
    proof {
        reveal_strlit("procedure");
        reveal_strlit("процедура");
        reveal_strlit("function");
        reveal_strlit("функция");
    }
    let (kw, kind): (&str, &str) = if lower_starts_with_in(t, "procedure") {
        ("procedure", "procedure")
    } else if lower_starts_with_in(t, "процедура") {
        ("процедура", "procedure")
    } else if lower_starts_with_in(t, "function") {
        ("function", "function")
    } else if lower_starts_with_in(t, "функция") {
        ("функция", "function")
    } else {
        return Ok(None);
    };
    assert(t@.subrange(0, t@.len() as int) == t@);
    let rest = skip_bytes_of(t, keyword_bytes(kw));
    let rem = trim_start_chars(&rest);
    let open = match find_char_in(&rem, '(') {
        None => {
            return Err(
                BslQueryError::MalformedScope { line: number, text: string_of_range(t, 0, t.len()) },
            );
        },
        Some(o) => o,
    };
    assert(t@.subrange(0, t@.len() as int) == t@);
    let head = slice_chars(&rem, 0, open);
    assert(head@ == rem@.take(open as int));
    let raw = trimmed_chars(&head);
    if raw.len() == 0 {
        return Err(BslQueryError::MalformedScope { line: number, text: string_of_range(t, 0, t.len()) });
    }
    let raw_text = string_of_range(&raw, 0, raw.len());
    assert(raw@.subrange(0, raw@.len() as int) == raw@);
    let owner_name = match EntityName::new(raw_text.as_str()) {
        Err(_) => {
            return Err(BslQueryError::InvalidName(number));
        },
        Ok(n) => n,
    };
    let mut id_text = String::new();
    crate::text::push_str(&mut id_text, module_id.as_str());
    crate::text::push_str(&mut id_text, ":");
    crate::text::push_str(&mut id_text, kind);
    crate::text::push_str(&mut id_text, ":");
    crate::text::push_str(&mut id_text, raw_text.as_str());
    let owner_id = match EntityId::from_string(id_text) {
        Err(_) => {
            return Err(BslQueryError::InvalidIdentifier(number));
        },
        Ok(i) => i,
    };
    Ok(Some(BslQueryScope { owner_id, owner_name }))
}

/// Returns `scope_end(t)`.
fn is_scope_end(t: &[char]) -> (r: bool)
    ensures
        r == scope_end(t@),
{
    let trimmed = trimmed_chars(t);
    lower_is_one_of(&trimmed, "endprocedure", "конецпроцедуры", "endfunction", "конецфункции")
}

/// Returns `assignment_split(t)`.
fn split_assignment(t: &[char]) -> (r: Option<usize>)
    ensures
        match r {
            Some(eq) => assignment_split(t@) == Some(eq as int) && eq < t@.len(),
            None => assignment_split(t@) is None,
        },
{
    let eq = match find_char_in(t, '=') {
        None => {
            return None;
        },
        Some(e) => e,
    };
    let tl = t.len();
    let left = slice_chars(t, 0, eq);
    let right = slice_chars(t, eq + 1, tl);
    assert(left@ == t@.take(eq as int));
    assert(right@ == t@.skip(eq + 1));
    let (a, b) = trim_range(&left);
    let (c, d) = trim_range(&right);
    if a == b || c == d {
        return None;
    }
    Some(eq)
}

/// The statement suffix after a closing quote, as scalars of `s`.
fn literal_suffix(s: &[char], p: &Vec<(usize, usize, usize)>, close: usize, last: usize) -> (r: Vec<char>)
    requires
        physical_wf(s@, p@),
        last < p@.len(),
        close < p@[last as int].1,
    ensures
        r@ == s@.subrange(close + 1, triples(p@)[last as int].1),
{
    assert(triples(p@)[last as int] == (p@[last as int].0 as int, p@[last as int].1 as int, p@[last as int].2 as int));
    slice_chars(s, close + 1, p[last].1)
}

/// Returns `constructor(s, p, li, t, base)`.
fn parse_query_constructor(
    s: &[char],
    p: &Vec<(usize, usize, usize)>,
    li: usize,
    t: &[char],
    base: usize,
) -> (r: Option<(Vec<char>, Option<Vec<char>>, usize, Option<DecodedBslSourceMap>)>)
    requires
        physical_wf(s@, p@),
        base + t@.len() <= s@.len(),
        li < p@.len(),
        p@[li as int].0 <= base,
    ensures
        match r {
            None => constructor(s@, triples(p@), li as int, t@, base as int) is None,
            Some((b, txt, last, m)) => constructor(s@, triples(p@), li as int, t@, base as int) == Some(
                StatementView { binding: b@, text: text_view(txt), last: last as int, map: map_view_opt(m) },
            ),
        },
        r matches Some((_, _, last, _)) ==> li <= last,
        r matches Some((_, Some(t), _, Some(m))) ==> map_consistent(m@.0, m@.1, t@.len() as int, s@.len() as int),
{
    let eq = match split_assignment(t) {
        None => {
            return None;
        },
        Some(e) => e,
    };
    let tl = t.len();
    let sl = s.len();
    let left = slice_chars(t, 0, eq);
    let right = slice_chars(t, eq + 1, tl);
    assert(left@ == t@.take(eq as int));
    assert(right@ == t@.skip(eq + 1));
    if find_char_in(&left, '.').is_some() {
        return None;
    }
    let binding = trimmed_chars(&left);
    let binding_text = string_of_range(&binding, 0, binding.len());
    assert(binding@.subrange(0, binding@.len() as int) == binding@);
    if is_blank(binding_text.as_str()) {
        return None;
    }
    let right_trimmed = trimmed_chars(&right);
    let cons = strip_statement_end_of(&right_trimmed);
    proof {
        reveal_strlit("new query");
        reveal_strlit("новый запрос");
    }
    let prefix: &str = if lower_starts_with_in(&cons, "new query") {
        "new query"
    } else if lower_starts_with_in(&cons, "новый запрос") {
        "новый запрос"
    } else {
        return None;
    };
    let after_prefix = skip_bytes_of(&cons, keyword_bytes(prefix));
    let rem = trimmed_chars(&after_prefix);
    if rem.len() == 0 {
        return Some((binding, None, li, None));
    }
    if rem[0] != '(' {
        return None;
    }
    let ro = match find_sub_in(&right, &rem) {
        None => {
            return None;
        },
        Some(o) => o,
    };
    let after = slice_chars(&rem, 1, rem.len());
    assert(after@ == rem@.skip(1));
    let k = skip_whitespace(&after, 0);
    if !(k < after.len() && after[k] == '"') {
        return None;
    }
    let q = base + eq + 1 + ro + 1 + k;
    match decode_static_string_literal(s, p, li, q) {
        None => None,
        Some((text, close, last, map)) => {
            proof {
                lemma_decode_scan_result(s@, triples(p@), li as int, q + 1, q + 1, Seq::empty());
                assert(triples(p@)[last as int].1 == p@[last as int].1 as int);
            }
            let suffix = literal_suffix(s, p, close, last);
            let stripped = strip_statement_end_of(&suffix);
            if stripped.len() == 1 && stripped[0] == ')' {
                assert(stripped@ =~= seq![')']);
                Some((binding, Some(text), last, Some(map)))
            } else {
                proof {
                    if stripped@ == seq![')'] {
                        assert(stripped@.len() == 1);
                    }
                }
                None
            }
        },
    }
}

/// Returns `text_assignment(s, p, li, t, base)`.
fn parse_query_text_assignment(
    s: &[char],
    p: &Vec<(usize, usize, usize)>,
    li: usize,
    t: &[char],
    base: usize,
) -> (r: Option<(Vec<char>, Option<Vec<char>>, usize, Option<DecodedBslSourceMap>)>)
    requires
        physical_wf(s@, p@),
        base + t@.len() <= s@.len(),
        li < p@.len(),
        p@[li as int].0 <= base,
    ensures
        match r {
            None => text_assignment(s@, triples(p@), li as int, t@, base as int) is None,
            Some((b, txt, last, m)) => text_assignment(s@, triples(p@), li as int, t@, base as int)
                == Some(StatementView { binding: b@, text: text_view(txt), last: last as int, map: map_view_opt(m) }),
        },
        r matches Some((_, _, last, _)) ==> li <= last,
        r matches Some((_, Some(t), _, Some(m))) ==> map_consistent(m@.0, m@.1, t@.len() as int, s@.len() as int),
{
    let eq = match split_assignment(t) {
        None => {
            return None;
        },
        Some(e) => e,
    };
    let tl = t.len();
    let sl = s.len();
    let left = slice_chars(t, 0, eq);
    let right = slice_chars(t, eq + 1, tl);
    assert(left@ == t@.take(eq as int));
    assert(right@ == t@.skip(eq + 1));
    let d = match find_char_in(&left, '.') {
        None => {
            return None;
        },
        Some(d) => d,
    };
    let property_raw = slice_chars(&left, d + 1, left.len());
    assert(property_raw@ == left@.skip(d + 1));
    let property = trimmed_chars(&property_raw);
    if !lower_is_one_of(&property, "text", "текст", "text", "текст") {
        return None;
    }
    let binding_raw = slice_chars(&left, 0, d);
    assert(binding_raw@ == left@.take(d as int));
    let binding = trimmed_chars(&binding_raw);
    let binding_text = string_of_range(&binding, 0, binding.len());
    assert(binding@.subrange(0, binding@.len() as int) == binding@);
    if is_blank(binding_text.as_str()) {
        return None;
    }
    let k = skip_whitespace(&right, 0);
    if k < right.len() && right[k] == '"' {
        let q = base + eq + 1 + k;
        match decode_static_string_literal(s, p, li, q) {
            Some((text, close, last, map)) => {
                proof {
                    lemma_decode_scan_result(s@, triples(p@), li as int, q + 1, q + 1, Seq::empty());
                    assert(triples(p@)[last as int].1 == p@[last as int].1 as int);
                }
                let suffix = literal_suffix(s, p, close, last);
                let stripped = strip_statement_end_of(&suffix);
                if stripped.len() == 0 {
                    Some((binding, Some(text), last, Some(map)))
                } else {
                    Some((binding, None, li, None))
                }
            },
            None => Some((binding, None, li, None)),
        }
    } else {
        Some((binding, None, li, None))
    }
}

// ---------------------------------------------------------------- extraction

pub proof fn lemma_constructor_last(
    s: Seq<char>,
    p: Seq<(int, int, int)>,
    li: int,
    t: Seq<char>,
    base: int,
)
    requires
        0 <= li < p.len(),
    ensures
        constructor(s, p, li, t, base) matches Some(d) ==> li <= d.last < p.len(),
{
    if let Some(eq) = assignment_split(t) {
        let right = t.skip(eq + 1);
        let cons = strip_statement_end(trim(right));
        let prefix = if lower_starts_with(cons, "new query"@) {
            Some("new query"@)
        } else if lower_starts_with(cons, "новый запрос"@) {
            Some("новый запрос"@)
        } else {
            None
        };
        if prefix is Some {
            let rem = trim(skip_bytes(cons, utf8_len(prefix->0) as int));
            if rem.len() > 0 {
                let after = rem.skip(1);
                let at = trim_start(after);
                let q = base + eq + 1 + find_sub(right, rem, 0) + 1 + (after.len() - at.len());
                if q + 1 <= p[li].1 {
                    lemma_decode_scan_result(s, p, li, q + 1, q + 1, Seq::empty());
                }
            }
        }
    }
}

pub proof fn lemma_assignment_last(
    s: Seq<char>,
    p: Seq<(int, int, int)>,
    li: int,
    t: Seq<char>,
    base: int,
)
    requires
        0 <= li < p.len(),
    ensures
        text_assignment(s, p, li, t, base) matches Some(d) ==> li <= d.last < p.len(),
{
    if let Some(eq) = assignment_split(t) {
        let right = t.skip(eq + 1);
        let value = trim_start(right);
        let q = base + eq + 1 + (right.len() - value.len());
        if q + 1 <= p[li].1 {
            lemma_decode_scan_result(s, p, li, q + 1, q + 1, Seq::empty());
        }
    }
}

/// Abstract value of a query declaration.
pub struct QueryView {
    pub id: Seq<char>,
    pub owner_id: Seq<char>,
    pub owner_name: Seq<char>,
    pub binding: Seq<char>,
    pub text: Seq<char>,
    pub line: int,
    pub map: Option<MapView>,
}

/// A pending query binding of the current scope: its lowercase key and either
/// the query with whether its text is known, or `None` once it is ambiguous.
pub struct CandView {
    pub key: Seq<char>,
    pub state: Option<(QueryView, bool)>,
}

/// Index of the candidate with key `key` from `j` on, or `-1`.
pub open spec fn find_key(cands: Seq<CandView>, key: Seq<char>, j: int) -> int
    decreases cands.len() - j,
{
    if j < 0 || j >= cands.len() {
        -1
    } else if cands[j].key == key {
        j
    } else {
        find_key(cands, key, j + 1)
    }
}

/// The queries of the supported candidates with a known, non-empty text.
pub open spec fn flushed(cands: Seq<CandView>) -> Seq<QueryView>
    decreases cands.len(),
{
    if cands.len() == 0 {
        Seq::empty()
    } else {
        let rest = flushed(cands.drop_last());
        match cands.last().state {
            Some((q, true)) => if q.text.len() > 0 {
                rest.push(q)
            } else {
                rest
            },
            _ => rest,
        }
    }
}

/// Text of a query identifier `{owner}:query:{binding}`.
pub open spec fn query_id_text(owner_id: Seq<char>, binding: Seq<char>) -> Seq<char> {
    owner_id + ":query:"@ + binding
}

/// A constructor for key `key`: a second constructor makes the binding ambiguous.
pub open spec fn add_constructor(cands: Seq<CandView>, key: Seq<char>, q: QueryView, has_text: bool) -> Seq<
    CandView,
> {
    let j = find_key(cands, key, 0);
    if j >= 0 {
        cands.update(j, CandView { key, state: None })
    } else {
        cands.push(CandView { key, state: Some((q, has_text)) })
    }
}

/// A text assignment for key `key`: it sets the text of a supported candidate
/// without text; any other assignment makes the binding ambiguous.
pub open spec fn apply_assignment(
    cands: Seq<CandView>,
    key: Seq<char>,
    text: Option<Seq<char>>,
    map: Option<MapView>,
) -> Seq<CandView> {
    let j = find_key(cands, key, 0);
    if j < 0 {
        cands
    } else {
        match (cands[j].state, text) {
            (Some((q, false)), Some(t)) => cands.update(
                j,
                CandView { key, state: Some((QueryView { text: t, map, ..q }, true)) },
            ),
            _ => cands.update(j, CandView { key, state: None }),
        }
    }
}

/// Queries collected from physical line `li` on, in collection order.
pub open spec fn query_scan(
    s: Seq<char>,
    p: Seq<(int, int, int)>,
    module: Seq<char>,
    li: int,
    scope: Option<QueryScopeView>,
    cands: Seq<CandView>,
    all: Seq<QueryView>,
) -> Result<Seq<QueryView>, QueryErrorView>
    decreases p.len() - li,
{
    if li < 0 || li >= p.len() {
        Ok(all + flushed(cands))
    } else {
        let x = s.subrange(p[li].0, p[li].1);
        let k = skip_ws(x, 0);
        let t = x.skip(k);
        let number = li + 1;
        let base = p[li].0 + k;
        if k >= x.len() || comment_at(x, k) || x[k] == '#' {
            query_scan(s, p, module, li + 1, scope, cands, all)
        } else {
            match scope_start(module, t, number) {
                Err(e) => Err(e),
                Ok(Some(sc)) => query_scan(s, p, module, li + 1, Some(sc), Seq::empty(), all),
                Ok(None) => if scope_end(t) {
                    query_scan(s, p, module, li + 1, None, Seq::empty(), all + flushed(cands))
                } else {
                    match scope {
                        None => query_scan(s, p, module, li + 1, None, cands, all),
                        Some(sc) => match constructor(s, p, li, t, base) {
                            Some(d) => {
                                let id = query_id_text(sc.owner_id, d.binding);
                                let q = QueryView {
                                    id,
                                    owner_id: sc.owner_id,
                                    owner_name: sc.owner_name,
                                    binding: d.binding,
                                    text: match d.text {
                                        Some(txt) => txt,
                                        None => Seq::empty(),
                                    },
                                    line: number,
                                    map: d.map,
                                };
                                proof {
                                    lemma_constructor_last(s, p, li, t, base);
                                }
                                if all_ws(id) {
                                    Err(QueryErrorView::InvalidIdentifier(0))
                                } else {
                                    query_scan(
                                        s,
                                        p,
                                        module,
                                        d.last + 1,
                                        scope,
                                        add_constructor(cands, lowercase(d.binding), q, d.text is Some),
                                        all,
                                    )
                                }
                            },
                            None => match text_assignment(s, p, li, t, base) {
                                Some(a) => {
                                    proof {
                                        lemma_assignment_last(s, p, li, t, base);
                                    }
                                    query_scan(
                                        s,
                                        p,
                                        module,
                                        a.last + 1,
                                        scope,
                                        apply_assignment(cands, lowercase(a.binding), a.text, a.map),
                                        all,
                                    )
                                },
                                None => query_scan(s, p, module, li + 1, scope, cands, all),
                            },
                        },
                    }
                },
            }
        }
    }
}

/// The queries of a module in collection order: each scope's supported
/// candidates when the scope ends, and those still pending at the end.
pub open spec fn collected_queries(s: Seq<char>, module: Seq<char>) -> Result<Seq<QueryView>, QueryErrorView> {
    query_scan(s, physical_lines(s), module, 0, None, Seq::empty(), Seq::empty())
}

// ---------------------------------------------------------------- ordering

/// First position of `r` from `i` on whose identifier does not sort before `id`.
pub open spec fn insert_pos(r: Seq<QueryView>, id: Seq<char>, i: int) -> int
    decreases r.len() - i,
{
    if 0 <= i < r.len() && lex_lt(r[i].id, id) {
        insert_pos(r, id, i + 1)
    } else {
        i
    }
}

/// Inserts `q` into the identifier-ordered `r` unless its identifier is present.
pub open spec fn insert_unique(r: Seq<QueryView>, q: QueryView) -> Seq<QueryView> {
    let p = insert_pos(r, q.id, 0);
    if 0 <= p < r.len() && r[p].id == q.id {
        r
    } else {
        r.insert(p, q)
    }
}

/// `all` ordered by identifier, keeping the first query of each identifier.
pub open spec fn sorted_unique(all: Seq<QueryView>) -> Seq<QueryView>
    decreases all.len(),
{
    if all.len() == 0 {
        Seq::empty()
    } else {
        insert_unique(sorted_unique(all.drop_last()), all.last())
    }
}

/// A static query declaration found inside a BSL procedure or function.
#[derive(Debug, Clone, PartialEq, Eq)]
pub struct BslQuery {
    id: EntityId,
    owner_id: EntityId,
    owner_name: EntityName,
    binding_name: EntityName,
    text: String,
    line: usize,
    source_map: RetainedSourceMap,
}

impl View for BslQuery {
    type V = QueryView;

    closed spec fn view(&self) -> QueryView {
        QueryView {
            id: self.id@,
            owner_id: self.owner_id@,
            owner_name: self.owner_name@,
            binding: self.binding_name@,
            text: self.text@,
            line: self.line as int,
            map: self.source_map.map_view(),
        }
    }
}

impl BslQuery {
    /// Creates a BSL query declaration.
    pub fn new(
        id: EntityId,
        owner_id: EntityId,
        owner_name: EntityName,
        binding_name: EntityName,
        text: String,
        line: usize,
    ) -> (r: Self)
        ensures
            r@ == (QueryView {
                id: id@,
                owner_id: owner_id@,
                owner_name: owner_name@,
                binding: binding_name@,
                text: text@,
                line: line as int,
                map: None,
            }),
    {
        BslQuery { id, owner_id, owner_name, binding_name, text, line, source_map: RetainedSourceMap(None) }
    }

    /// The view of the source map the query keeps for its decoded text.
    pub closed spec fn source_map_view(&self) -> Option<(Seq<DecodedBslSourceSegment>, Seq<MappedPhysicalLine>)> {
        self.source_map.map_view()
    }

    /// Returns the source map of the decoded text, when the text was decoded
    /// from a literal.
    pub fn source_map(&self) -> (r: Option<&DecodedBslSourceMap>)
        ensures
            match r {
                Some(m) => self.source_map_view() == Some(m@),
                None => self.source_map_view() is None,
            },
    {
        match &self.source_map.0 {
            Some(m) => Some(m),
            None => None,
        }
    }

    /// Returns the stable query identifier.
    pub fn id(&self) -> (r: &EntityId)
        ensures
            r@ == self@.id,
    {
        &self.id
    }

    /// Returns the owner procedure or function identifier.
    pub fn owner_id(&self) -> (r: &EntityId)
        ensures
            r@ == self@.owner_id,
    {
        &self.owner_id
    }

    /// Returns the owner procedure or function name.
    pub fn owner_name(&self) -> (r: &EntityName)
        ensures
            r@ == self@.owner_name,
    {
        &self.owner_name
    }

    /// Returns the local binding that declares the query.
    pub fn binding_name(&self) -> (r: &EntityName)
        ensures
            r@ == self@.binding,
    {
        &self.binding_name
    }

    /// Returns the complete static query text.
    pub fn text(&self) -> (r: &str)
        ensures
            r@ == self@.text,
    {
        self.text.as_str()
    }

    /// Returns the one-based source line of the local query declaration.
    pub fn line(&self) -> (r: usize)
        ensures
            r as int == self@.line,
    {
        self.line
    }

    /// Returns an identical copy of the query.
    pub fn duplicate(&self) -> (r: Self)
        ensures
            r@ == self@,
    {
        BslQuery {
            id: self.id.duplicate(),
            owner_id: self.owner_id.duplicate(),
            owner_name: self.owner_name.duplicate(),
            binding_name: self.binding_name.duplicate(),
            text: self.text.clone(),
            line: self.line,
            source_map: self.source_map.duplicate(),
        }
    }
}

/// The views of queries.
pub open spec fn query_views(v: Seq<BslQuery>) -> Seq<QueryView> {
    v.map_values(|q: BslQuery| q@)
}

/// A pending binding: its key and either the query with its text flag, or ambiguity.
struct QueryCandidate {
    key: String,
    state: Option<(BslQuery, bool)>,
}

impl View for QueryCandidate {
    type V = CandView;

    closed spec fn view(&self) -> CandView {
        CandView {
            key: self.key@,
            state: match self.state {
                Some((q, h)) => Some((q@, h)),
                None => None,
            },
        }
    }
}

/// The views of candidates.
pub open spec fn cand_views(v: Seq<QueryCandidate>) -> Seq<CandView> {
    v.map_values(|c: QueryCandidate| c@)
}

/// Returns `find_key(cand_views(cands), key, 0)` as an optional index.
fn find_candidate(cands: &Vec<QueryCandidate>, key: &String) -> (r: Option<usize>)
    ensures
        match r {
            Some(j) => find_key(cand_views(cands@), key@, 0) == j as int && j < cands@.len(),
            None => find_key(cand_views(cands@), key@, 0) == -1,
        },
{
    let mut j: usize = 0;
    while j < cands.len()
        invariant
            j <= cands@.len(),
            find_key(cand_views(cands@), key@, j as int) == find_key(cand_views(cands@), key@, 0),
        decreases cands@.len() - j,
    {
        assert(cand_views(cands@)[j as int] == cands@[j as int]@);
        if cands[j].key == *key {
            return Some(j);
        }
        j = j + 1;
    }
    None
}

/// Appends the queries of `flushed(cand_views(cands))` to `all`.
fn flush_candidates(all: &mut Vec<BslQuery>, cands: &Vec<QueryCandidate>)
    ensures
        query_views(final(all)@) == query_views(old(all)@) + flushed(cand_views(cands@)),
{
    let mut j: usize = 0;
    assert(cand_views(cands@).take(0) =~= Seq::<CandView>::empty());
    assert(query_views(all@) == query_views(old(all)@) + Seq::<QueryView>::empty());
    while j < cands.len()
        invariant
            j <= cands@.len(),
            query_views(all@) == query_views(old(all)@) + flushed(cand_views(cands@).take(j as int)),
        decreases cands@.len() - j,
    {
        assert(cand_views(cands@).take(j + 1).drop_last() == cand_views(cands@).take(j as int));
        assert(cand_views(cands@).take(j + 1).last() == cands@[j as int]@);
        match &cands[j].state {
            Some((q, true)) => {
                if !q.text.as_str().is_empty() {
                    let ghost before = all@;
                    all.push(q.duplicate());
                    assert(query_views(all@) == query_views(before).push(q@));
                }
            },
            _ => {},
        }
        j = j + 1;
    }
    assert(cand_views(cands@).take(cands@.len() as int) == cand_views(cands@));
}

/// Returns `lex_lt(a, b)` for two identifiers.
fn id_less(a: &EntityId, b: &EntityId) -> (r: bool)
    ensures
        r == lex_lt(a@, b@),
{
    crate::text::text_less(a.as_str(), b.as_str())
}

/// Returns `sorted_unique(all)`.
fn sort_dedup(all: &Vec<BslQuery>) -> (r: Vec<BslQuery>)
    ensures
        query_views(r@) == sorted_unique(query_views(all@)),
{
    let ghost a = query_views(all@);
    let mut out: Vec<BslQuery> = Vec::new();
    let mut k: usize = 0;
    assert(a.take(0) =~= Seq::<QueryView>::empty());
    while k < all.len()
        invariant
            k <= all@.len(),
            a == query_views(all@),
            query_views(out@) == sorted_unique(a.take(k as int)),
        decreases all@.len() - k,
    {
        let q = &all[k];
        let ghost o = query_views(out@);
        assert(a[k as int] == q@);
        assert(a.take(k + 1).drop_last() == a.take(k as int));
        assert(a.take(k + 1).last() == q@);
        let mut pos: usize = 0;
        while pos < out.len() && id_less(out[pos].id(), q.id())
            invariant
                pos <= out@.len(),
                o == query_views(out@),
                insert_pos(o, q@.id, pos as int) == insert_pos(o, q@.id, 0),
            decreases out@.len() - pos,
        {
            assert(o[pos as int] == out@[pos as int]@);
            pos = pos + 1;
        }
        if pos < out.len() {
            assert(o[pos as int] == out@[pos as int]@);
        }
        let present = pos < out.len() && crate::text::text_equal(
            out[pos].id().as_str(),
            q.id().as_str(),
        );
        if !present {
            out.insert(pos, q.duplicate());
            assert(query_views(out@) == o.insert(pos as int, q@));
        }
        k = k + 1;
    }
    assert(a.take(all@.len() as int) == a);
    out
}

/// The view of an optional scope.
pub open spec fn scope_view(s: Option<BslQueryScope>) -> Option<QueryScopeView> {
    match s {
        Some(sc) => Some(sc@),
        None => None,
    }
}

/// Applies a constructor for `key` to the candidates.
fn add_constructor_candidate(cands: &mut Vec<QueryCandidate>, key: String, query: BslQuery, has_text: bool)
    ensures
        cand_views(final(cands)@) == add_constructor(cand_views(old(cands)@), key@, query@, has_text),
{
    let ghost before = cands@;
    match find_candidate(cands, &key) {
        Some(j) => {
            let ghost k = key@;
            cands.set(j, QueryCandidate { key, state: None });
            assert(cand_views(cands@) == cand_views(before).update(j as int, CandView { key: k, state: None }));
        },
        None => {
            let ghost k = key@;
            let ghost qv = query@;
            cands.push(QueryCandidate { key, state: Some((query, has_text)) });
            assert(cand_views(cands@) == cand_views(before).push(CandView { key: k, state: Some((qv, has_text)) }));
        },
    }
}

/// Applies a text assignment for `key` to the candidates.
fn apply_assignment_candidate(
    cands: &mut Vec<QueryCandidate>,
    key: String,
    text: Option<Vec<char>>,
    map: Option<DecodedBslSourceMap>,
)
    ensures
        cand_views(final(cands)@) == apply_assignment(cand_views(old(cands)@), key@, text_view(text), map_view_opt(map)),
{
    let ghost before = cands@;
    let j = match find_candidate(cands, &key) {
        None => {
            return;
        },
        Some(j) => j,
    };
    assert(cand_views(before)[j as int] == before[j as int]@);
    let ghost k = key@;
    let replacement = match (&cands[j].state, &text) {
        (Some((q, false)), Some(t)) => {
            let mut updated = q.duplicate();
            updated.text = crate::text::string_of(t.as_slice());
            updated.source_map = RetainedSourceMap(map);
            Some((updated, true))
        },
        _ => None,
    };
    let ghost rv = match &replacement {
        Some((q, h)) => Some((q@, *h)),
        None => None,
    };
    cands.set(j, QueryCandidate { key, state: replacement });
    assert(cand_views(cands@) == cand_views(before).update(j as int, CandView { key: k, state: rv }));
}

/// Builds the identifier text `{owner}:query:{binding}`.
fn query_id(owner_id: &EntityId, binding: &str) -> (r: String)
    ensures
        r@ == query_id_text(owner_id@, binding@),
{
    let mut text = String::new();
    crate::text::push_str(&mut text, owner_id.as_str());
    crate::text::push_str(&mut text, ":query:");
    crate::text::push_str(&mut text, binding);
    proof {
        reveal_strlit(":query:");
    }
    text
}

/// Returns whether the content of a physical line starting at `k` is blank, a
/// comment or a preprocessor instruction.
fn is_skipped_line(x: &[char], k: usize) -> (r: bool)
    ensures
        r == (k >= x@.len() || comment_at(x@, k as int) || x@[k as int] == '#'),
{
    k >= x.len() || (k + 1 < x.len() && x[k] == '/' && x[k + 1] == '/') || x[k] == '#'
}

/// Extracts the static queries of a module.
fn extract_module_queries(module_id: &EntityId, source: &str) -> (r: Result<Vec<BslQuery>, BslQueryError>)
    ensures
        match collected_queries(source@, module_id@) {
            Ok(all) => r is Ok && query_views(r->Ok_0@) == sorted_unique(all),
            Err(e) => r is Err && r->Err_0@ == e,
        },
{
    let s = chars_of(source);
    let p = collect_physical_lines(s.as_slice());
    let ghost tp = triples(p@);
    let ghost target = query_scan(s@, tp, module_id@, 0, None, Seq::empty(), Seq::empty());
    let mut scope: Option<BslQueryScope> = None;
    let mut cands: Vec<QueryCandidate> = Vec::new();
    let mut all: Vec<BslQuery> = Vec::new();
    let mut li: usize = 0;
    assert(cand_views(cands@) == Seq::<CandView>::empty());
    assert(query_views(all@) == Seq::<QueryView>::empty());
    while li < p.len()
        invariant
            physical_wf(s@, p@),
            tp == triples(p@),
            s@ == source@,
            li <= p@.len(),
            target == collected_queries(source@, module_id@),
            query_scan(s@, tp, module_id@, li as int, scope_view(scope), cand_views(cands@), query_views(all@))
                == target,
        decreases p@.len() - li,
    {
        assert(tp[li as int] == (p@[li as int].0 as int, p@[li as int].1 as int, p@[li as int].2 as int));
        let (start, end, _) = p[li];
        let count = p.len();
        let number = li + 1;
        let x = slice_chars(s.as_slice(), start, end);
        let k = skip_whitespace(&x, 0);
        if is_skipped_line(&x, k) {
            li = li + 1;
            continue;
        }
        let t = slice_chars(&x, k, x.len());
        assert(t@ == x@.skip(k as int));
        let base = start + k;
        match parse_scope_start(module_id, &t, number) {
            Err(e) => {
                return Err(e);
            },
            Ok(Some(sc)) => {
                scope = Some(sc);
                cands = Vec::new();
                assert(cand_views(cands@) == Seq::<CandView>::empty());
                li = li + 1;
                continue;
            },
            Ok(None) => {},
        }
        if is_scope_end(&t) {
            flush_candidates(&mut all, &cands);
            cands = Vec::new();
            assert(cand_views(cands@) == Seq::<CandView>::empty());
            scope = None;
            li = li + 1;
            continue;
        }
        let (owner_id, owner_name) = match &scope {
            None => {
                li = li + 1;
                continue;
            },
            Some(sc) => (sc.owner_id.duplicate(), sc.owner_name.duplicate()),
        };
        match parse_query_constructor(s.as_slice(), &p, li, &t, base) {
            Some((binding, text, last, map)) => {
                proof {
                    lemma_constructor_last(s@, tp, li as int, t@, base as int);
                }
                let binding_text = crate::text::string_of(binding.as_slice());
                let id_text = query_id(&owner_id, binding_text.as_str());
                let id = match EntityId::from_string(id_text) {
                    Err(_) => {
                        return Err(BslQueryError::InvalidIdentifier(0));
                    },
                    Ok(i) => i,
                };
                let binding_name = match EntityName::new(binding_text.as_str()) {
                    Ok(n) => n,
                    Err(_) => {
                        return Err(BslQueryError::InvalidName(number));
                    },
                };
                let has_text = text.is_some();
                let query_text = match &text {
                    Some(v) => crate::text::string_of(v.as_slice()),
                    None => String::new(),
                };
                let mut query = BslQuery::new(id, owner_id, owner_name, binding_name, query_text, number);
                query.source_map = RetainedSourceMap(map);
                let key = bsl_name_key(binding_text.as_str());
                add_constructor_candidate(&mut cands, key, query, has_text);
                li = last + 1;
                continue;
            },
            None => {},
        }
        match parse_query_text_assignment(s.as_slice(), &p, li, &t, base) {
            Some((binding, text, last, map)) => {
                proof {
                    lemma_assignment_last(s@, tp, li as int, t@, base as int);
                }
                let binding_text = crate::text::string_of(binding.as_slice());
                let key = bsl_name_key(binding_text.as_str());
                apply_assignment_candidate(&mut cands, key, text, map);
                li = last + 1;
            },
            None => {
                li = li + 1;
            },
        }
    }
    flush_candidates(&mut all, &cands);
    Ok(sort_dedup(&all))
}

/// Extracts static query declarations from BSL source.
pub trait BslQueryExtractor {
    /// Extracts query declarations using `module_id` as the stable module identifier.
    fn extract_queries(&self, module_id: &EntityId, source: &str) -> (r: Result<Vec<BslQuery>, BslQueryError>);
}

/// Conservative line-oriented extractor for static BSL Query declarations.
#[derive(Debug, Clone, Copy)]
pub struct LineBslQueryExtractor;

impl BslQueryExtractor for LineBslQueryExtractor {
    fn extract_queries(&self, module_id: &EntityId, source: &str) -> (r: Result<Vec<BslQuery>, BslQueryError>)
        ensures
            match collected_queries(source@, module_id@) {
                Ok(all) => r is Ok && query_views(r->Ok_0@) == sorted_unique(all),
                Err(e) => r is Err && r->Err_0@ == e,
            },
    {
        extract_module_queries(module_id, source)
    }
}

/// Human-readable text of a query-extraction error.
pub open spec fn query_error_message(e: QueryErrorView) -> Seq<char> {
    match e {
        QueryErrorView::InvalidName(line) => "invalid BSL query name at line "@ + decimal(line as nat),
        QueryErrorView::InvalidIdentifier(line) => "invalid BSL query identifier at line "@ + decimal(
            line as nat,
        ),
        QueryErrorView::MalformedScope { line, text } => "malformed BSL query scope declaration at line "@
            + decimal(line as nat) + ": "@ + text,
    }
}

impl BslQueryError {
    /// Returns the human-readable error text.
    pub fn message(&self) -> (r: String)
        ensures
            r@ == query_error_message(self@),
    {
        let mut out = String::new();
        match self {
            BslQueryError::InvalidName(line) => {
                crate::text::push_str(&mut out, "invalid BSL query name at line ");
                push_decimal(&mut out, *line);
            },
            BslQueryError::InvalidIdentifier(line) => {
                crate::text::push_str(&mut out, "invalid BSL query identifier at line ");
                push_decimal(&mut out, *line);
            },
            BslQueryError::MalformedScope { line, text } => {
                crate::text::push_str(&mut out, "malformed BSL query scope declaration at line ");
                push_decimal(&mut out, *line);
                crate::text::push_str(&mut out, ": ");
                crate::text::push_str(&mut out, text.as_str());
            },
        }
        out
    }
}

} // verus!
