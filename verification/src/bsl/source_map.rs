//! Source maps of decoded BSL string literals: which piece of the decoded
//! text came from which piece of the source, and the physical lines the
//! literal spans. Offsets count Unicode scalar values of the decoded text and
//! of the source.

use vstd::prelude::*;

verus! {

/// One piece of a decoded literal and the source it came from.
#[derive(Debug, Clone, Copy, PartialEq, Eq)]
pub enum DecodedBslSourceSegment {
    /// Payload copied unchanged.
    Copied {
        /// Start of the piece in the decoded text.
        decoded_start: usize,
        /// End of the piece in the decoded text.
        decoded_end: usize,
        /// Start of the copied source.
        source_start: usize,
        /// End of the copied source.
        source_end: usize,
    },
    /// A doubled quote decoded as one quote.
    CollapsedQuote {
        /// Start of the quote in the decoded text.
        decoded_start: usize,
        /// End of the quote in the decoded text.
        decoded_end: usize,
        /// Start of the doubled quote in the source.
        source_start: usize,
        /// End of the doubled quote in the source.
        source_end: usize,
    },
    /// A line feed decoded from a line ending and the continuation marker of
    /// the next line.
    InsertedLf {
        /// Start of the line feed in the decoded text.
        decoded_start: usize,
        /// End of the line feed in the decoded text.
        decoded_end: usize,
        /// Start of the previous line's ending.
        previous_line_ending_start: usize,
        /// End of the previous line's ending.
        previous_line_ending_end: usize,
        /// Start of the next line's indentation.
        next_indentation_and_marker_start: usize,
        /// End of the next line's `|` marker.
        next_indentation_and_marker_end: usize,
    },
}

/// A physical source line that a decoded literal spans.
#[derive(Debug, Clone, Copy, PartialEq, Eq)]
pub struct MappedPhysicalLine {
    /// One-based line number.
    pub line_number: usize,
    /// Start of the line's content.
    pub raw_content_start: usize,
    /// End of the line's content, before its line ending.
    pub raw_content_end: usize,
    /// Start of the line ending.
    pub line_ending_start: usize,
    /// End of the line ending.
    pub line_ending_end: usize,
    /// The `|` continuation marker, on every line but the first.
    pub marker_offset: Option<usize>,
    /// Where the literal's payload starts on the line.
    pub payload_start_offset: usize,
}

/// Start of a segment in the decoded text.
pub open spec fn segment_start(g: DecodedBslSourceSegment) -> int {
    match g {
        DecodedBslSourceSegment::Copied { decoded_start, .. } => decoded_start as int,
        DecodedBslSourceSegment::CollapsedQuote { decoded_start, .. } => decoded_start as int,
        DecodedBslSourceSegment::InsertedLf { decoded_start, .. } => decoded_start as int,
    }
}

/// End of a segment in the decoded text.
pub open spec fn segment_end(g: DecodedBslSourceSegment) -> int {
    match g {
        DecodedBslSourceSegment::Copied { decoded_end, .. } => decoded_end as int,
        DecodedBslSourceSegment::CollapsedQuote { decoded_end, .. } => decoded_end as int,
        DecodedBslSourceSegment::InsertedLf { decoded_end, .. } => decoded_end as int,
    }
}

/// The source ranges of a segment lie in a source of `n` scalars; those of
/// an inserted line feed are not empty.
pub open spec fn segment_source_ok(g: DecodedBslSourceSegment, n: int) -> bool {
    match g {
        DecodedBslSourceSegment::Copied { source_start, source_end, .. } => source_start <= source_end <= n,
        DecodedBslSourceSegment::CollapsedQuote { source_start, source_end, .. } => source_start <= source_end
            <= n,
        DecodedBslSourceSegment::InsertedLf {
            previous_line_ending_start,
            previous_line_ending_end,
            next_indentation_and_marker_start,
            next_indentation_and_marker_end,
            ..
        } => previous_line_ending_start < previous_line_ending_end <= n && next_indentation_and_marker_start
            < next_indentation_and_marker_end <= n,
    }
}

/// A mapped line lies in a source of `n` scalars, its payload starts within
/// its content and its marker, if any, precedes the payload.
pub open spec fn line_ok(l: MappedPhysicalLine, n: int) -> bool {
    &&& l.line_number > 0
    &&& l.raw_content_start <= l.raw_content_end <= n
    &&& l.line_ending_start <= l.line_ending_end <= n
    &&& l.raw_content_start <= l.payload_start_offset <= l.raw_content_end
    &&& (l.marker_offset matches Some(m) ==> l.raw_content_start <= m < l.payload_start_offset)
}

/// Segments follow each other without gaps from offset 0, none ends past
/// `decoded_len`, each has valid source ranges, and the last ends at
/// `decoded_len`.
pub open spec fn segments_cover(segs: Seq<DecodedBslSourceSegment>, decoded_len: int, source_len: int) -> bool {
    &&& forall|k: int| 0 <= k < segs.len() ==> #[trigger] segment_ok_at(segs, k, decoded_len, source_len)
    &&& (if segs.len() == 0 {
        decoded_len == 0
    } else {
        segment_end(segs.last()) == decoded_len
    })
}

/// Segment `k` starts where the one before it ends (the first at 0), ends
/// by `decoded_len`, and has valid source ranges.
pub open spec fn segment_ok_at(segs: Seq<DecodedBslSourceSegment>, k: int, decoded_len: int, source_len: int) -> bool {
    &&& segment_start(segs[k]) == (if k == 0 {
        0
    } else {
        segment_end(segs[k - 1])
    })
    &&& segment_end(segs[k]) <= decoded_len
    &&& segment_source_ok(segs[k], source_len)
}

/// A source map is consistent with a decoded text of `decoded_len` scalars
/// and a source of `source_len` scalars.
pub open spec fn map_consistent(
    segs: Seq<DecodedBslSourceSegment>,
    lines: Seq<MappedPhysicalLine>,
    decoded_len: int,
    source_len: int,
) -> bool {
    &&& segments_cover(segs, decoded_len, source_len)
    &&& forall|k: int| #![trigger lines[k]] 0 <= k < lines.len() ==> line_ok(lines[k], source_len)
}

/// Source map of a decoded literal: its segments in decoded order and the
/// physical lines it spans.
#[derive(Debug, Clone, PartialEq, Eq)]
pub struct DecodedBslSourceMap {
    segments: Vec<DecodedBslSourceSegment>,
    physical_lines: Vec<MappedPhysicalLine>,
}

impl View for DecodedBslSourceMap {
    type V = (Seq<DecodedBslSourceSegment>, Seq<MappedPhysicalLine>);

    closed spec fn view(&self) -> (Seq<DecodedBslSourceSegment>, Seq<MappedPhysicalLine>) {
        (self.segments@, self.physical_lines@)
    }
}

/// A position in the source: one-based line, one-based scalar column.
#[derive(Debug, Clone, Copy, PartialEq, Eq)]
pub struct BslSourcePosition {
    /// One-based line number.
    pub line: usize,
    /// One-based column, counted in Unicode scalars.
    pub column: usize,
}

/// The source positions where a decoded range starts and ends.
#[derive(Debug, Clone, Copy, PartialEq, Eq)]
pub struct BslSourceProjection {
    /// Where the projected source starts.
    pub start: BslSourcePosition,
    /// Where the projected source ends.
    pub end: BslSourcePosition,
}

/// The source range a segment maps the decoded range `[lo, hi)` to, where
/// they overlap: a copied piece maps offset for offset, a collapsed quote to
/// both quotes, an inserted line feed to the `|` marker.
pub open spec fn segment_projection(g: DecodedBslSourceSegment, lo: int, hi: int) -> (int, int) {
    match g {
        DecodedBslSourceSegment::Copied { decoded_start, source_start, .. } => (
            source_start + (lo - decoded_start),
            source_start + (hi - decoded_start),
        ),
        DecodedBslSourceSegment::CollapsedQuote { source_start, source_end, .. } => (
            source_start as int,
            source_end as int,
        ),
        DecodedBslSourceSegment::InsertedLf { next_indentation_and_marker_end, .. } => (
            next_indentation_and_marker_end - 1,
            next_indentation_and_marker_end as int,
        ),
    }
}

/// Larger of two integers.
pub open spec fn max_int(a: int, b: int) -> int {
    if a >= b {
        a
    } else {
        b
    }
}

/// Smaller of two integers.
pub open spec fn min_int(a: int, b: int) -> int {
    if a <= b {
        a
    } else {
        b
    }
}

/// Source start of the first and source end of the last of the first `n`
/// segments that overlap the decoded range `[lo, hi)`.
pub open spec fn projected_bounds(segs: Seq<DecodedBslSourceSegment>, lo: int, hi: int, n: int) -> (
    Option<int>,
    Option<int>,
)
    decreases n,
{
    if n <= 0 {
        (None, None)
    } else {
        let prev = projected_bounds(segs, lo, hi, n - 1);
        let g = segs[n - 1];
        let os = max_int(lo, segment_start(g));
        let oe = min_int(hi, segment_end(g));
        if os >= oe {
            prev
        } else {
            let r = segment_projection(g, os, oe);
            (
                match prev.0 {
                    Some(x) => Some(x),
                    None => Some(r.0),
                },
                Some(r.1),
            )
        }
    }
}

/// Index of the first mapped line from `i` on whose content range holds
/// `offset`, or the number of lines.
pub open spec fn line_holding(lines: Seq<MappedPhysicalLine>, offset: int, i: int) -> int
    decreases lines.len() - i,
{
    if i < 0 || i >= lines.len() {
        lines.len() as int
    } else if lines[i].raw_content_start <= offset <= lines[i].raw_content_end {
        i
    } else {
        line_holding(lines, offset, i + 1)
    }
}

/// The position of a source offset: the first mapped line holding it, and
/// the column after the scalars that precede it on that line.
pub open spec fn position_of(lines: Seq<MappedPhysicalLine>, offset: int) -> Option<(int, int)> {
    let i = line_holding(lines, offset, 0);
    if 0 <= i < lines.len() {
        Some((lines[i].line_number as int, offset - lines[i].raw_content_start + 1))
    } else {
        None
    }
}

/// The view of a position.
pub open spec fn position_view(p: BslSourcePosition) -> (int, int) {
    (p.line as int, p.column as int)
}

proof fn lemma_line_holding_bounds(lines: Seq<MappedPhysicalLine>, offset: int, i: int)
    requires
        0 <= i <= lines.len(),
    ensures
        i <= line_holding(lines, offset, i) <= lines.len(),
    decreases lines.len() - i,
{
    if i < lines.len() && !(lines[i].raw_content_start <= offset <= lines[i].raw_content_end) {
        lemma_line_holding_bounds(lines, offset, i + 1);
    }
}

/// A segment's decoded start and end, and whether its source ranges lie in
/// a source of `source_len` scalars.
fn segment_facts(g: DecodedBslSourceSegment, source_len: usize) -> (r: (usize, usize, bool))
    ensures
        r.0 as int == segment_start(g),
        r.1 as int == segment_end(g),
        r.2 == segment_source_ok(g, source_len as int),
{
    match g {
        DecodedBslSourceSegment::Copied { decoded_start, decoded_end, source_start, source_end } => (
            decoded_start,
            decoded_end,
            source_start <= source_end && source_end <= source_len,
        ),
        DecodedBslSourceSegment::CollapsedQuote { decoded_start, decoded_end, source_start, source_end } => (
            decoded_start,
            decoded_end,
            source_start <= source_end && source_end <= source_len,
        ),
        DecodedBslSourceSegment::InsertedLf {
            decoded_start,
            decoded_end,
            previous_line_ending_start,
            previous_line_ending_end,
            next_indentation_and_marker_start,
            next_indentation_and_marker_end,
        } => (
            decoded_start,
            decoded_end,
            previous_line_ending_start < previous_line_ending_end && previous_line_ending_end <= source_len
                && next_indentation_and_marker_start < next_indentation_and_marker_end
                && next_indentation_and_marker_end <= source_len,
        ),
    }
}

/// Returns `segments_cover(segs, decoded_len, source_len)`.
fn segments_cover_check(segs: &[DecodedBslSourceSegment], decoded_len: usize, source_len: usize) -> (r: bool)
    ensures
        r == segments_cover(segs@, decoded_len as int, source_len as int),
{
    let mut next: usize = 0;
    let mut k: usize = 0;
    while k < segs.len()
        invariant
            k <= segs@.len(),
            next as int == (if k == 0 {
                0
            } else {
                segment_end(segs@[k - 1])
            }),
            forall|j: int|
                0 <= j < k ==> #[trigger] segment_ok_at(segs@, j, decoded_len as int, source_len as int),
        decreases segs@.len() - k,
    {
        let g = segs[k];
        let (ds, de, ok) = segment_facts(g, source_len);
        if ds != next || de > decoded_len || !ok {
            assert(segs@[k as int] == g);
            assert(!segment_ok_at(segs@, k as int, decoded_len as int, source_len as int));
            return false;
        }
        assert(segment_ok_at(segs@, k as int, decoded_len as int, source_len as int));
        next = de;
        k = k + 1;
    }
    next == decoded_len
}

/// Returns whether every line of `lines` is `line_ok` in a source of
/// `source_len` scalars.
fn lines_check(lines: &[MappedPhysicalLine], source_len: usize) -> (r: bool)
    ensures
        r == forall|k: int| #![trigger lines@[k]] 0 <= k < lines@.len() ==> line_ok(lines@[k], source_len as int),
{
    let mut i: usize = 0;
    while i < lines.len()
        invariant
            i <= lines@.len(),
            forall|j: int| #![trigger lines@[j]] 0 <= j < i ==> line_ok(lines@[j], source_len as int),
        decreases lines@.len() - i,
    {
        let l = lines[i];
        let marker_ok = match l.marker_offset {
            Some(m) => l.raw_content_start <= m && m < l.payload_start_offset,
            None => true,
        };
        if !(l.line_number > 0 && l.raw_content_start <= l.raw_content_end && l.raw_content_end <= source_len
            && l.line_ending_start <= l.line_ending_end && l.line_ending_end <= source_len
            && l.raw_content_start <= l.payload_start_offset && l.payload_start_offset <= l.raw_content_end
            && marker_ok) {
            assert(!line_ok(lines@[i as int], source_len as int));
            return false;
        }
        i = i + 1;
    }
    true
}

impl DecodedBslSourceMap {
    /// Creates a source map from its segments and lines.
    pub(crate) fn from_parts(
        segments: Vec<DecodedBslSourceSegment>,
        physical_lines: Vec<MappedPhysicalLine>,
    ) -> (r: Self)
        ensures
            r@ == (segments@, physical_lines@),
    {
        DecodedBslSourceMap { segments, physical_lines }
    }

    /// Returns the segments in decoded order.
    pub fn segments(&self) -> (r: &[DecodedBslSourceSegment])
        ensures
            r@ == self@.0,
    {
        self.segments.as_slice()
    }

    /// Returns the physical lines the literal spans, in source order.
    pub fn physical_lines(&self) -> (r: &[MappedPhysicalLine])
        ensures
            r@ == self@.1,
    {
        self.physical_lines.as_slice()
    }

    /// Whether the map is consistent with a decoded text of `decoded_len`
    /// scalars and a source of `source_len` scalars.
    pub fn is_consistent(&self, decoded_len: usize, source_len: usize) -> (r: bool)
        ensures
            r == map_consistent(self@.0, self@.1, decoded_len as int, source_len as int),
    {
        segments_cover_check(self.segments.as_slice(), decoded_len, source_len) && lines_check(
            self.physical_lines.as_slice(),
            source_len,
        )
    }

    /// Returns the position of a source offset: the first mapped line whose
    /// content holds it, and its one-based scalar column there.
    pub fn source_position(&self, offset: usize) -> (r: Option<BslSourcePosition>)
        requires
            offset < usize::MAX,
        ensures
            match r {
                Some(p) => position_of(self@.1, offset as int) == Some(position_view(p)),
                None => position_of(self@.1, offset as int) is None,
            },
    {
        let lines = &self.physical_lines;
        proof {
            lemma_line_holding_bounds(lines@, offset as int, 0);
        }
        let mut i: usize = 0;
        while i < lines.len()
            invariant
                i <= lines@.len(),
                offset < usize::MAX,
                lines@ == self@.1,
                line_holding(lines@, offset as int, i as int) == line_holding(lines@, offset as int, 0),
            decreases lines@.len() - i,
        {
            let l = lines[i];
            assert(l == lines@[i as int]);
            if l.raw_content_start <= offset && offset <= l.raw_content_end {
                assert(line_holding(lines@, offset as int, i as int) == i as int);
                return Some(BslSourcePosition { line: l.line_number, column: offset - l.raw_content_start + 1 });
            }
            i = i + 1;
        }
        None
    }

    /// Projects the decoded range `[decoded_start, decoded_end)` onto the
    /// source: the position where the first overlapping segment's source
    /// starts and where the last one's ends. `None` when no segment
    /// overlaps the range or a position lies on no mapped line.
    pub fn project(&self, decoded_start: usize, decoded_end: usize) -> (r: Option<BslSourceProjection>)
        requires
            projectable(self@.0),
        ensures
            ({
                let b = projected_bounds(self@.0, decoded_start as int, decoded_end as int, self@.0.len() as int);
                match r {
                    Some(pr) => b.0 matches Some(x) && b.1 matches Some(y) && position_of(self@.1, x) == Some(
                        position_view(pr.start),
                    ) && position_of(self@.1, y) == Some(position_view(pr.end)),
                    None => !(b.0 matches Some(x) && b.1 matches Some(y) && position_of(self@.1, x) is Some
                        && position_of(self@.1, y) is Some),
                }
            }),
    {
        let segs = &self.segments;
        let mut first: Option<usize> = None;
        let mut last: Option<usize> = None;
        let mut k: usize = 0;
        while k < segs.len()
            invariant
                k <= segs@.len(),
                projectable(segs@),
                segs@ == self@.0,
                first matches Some(x) ==> x < usize::MAX,
                last matches Some(x) ==> x < usize::MAX,
                ({
                    let b = projected_bounds(segs@, decoded_start as int, decoded_end as int, k as int);
                    (match first {
                        Some(x) => b.0 == Some(x as int),
                        None => b.0 is None,
                    }) && (match last {
                        Some(x) => b.1 == Some(x as int),
                        None => b.1 is None,
                    })
                }),
            decreases segs@.len() - k,
        {
            let g = segs[k];
            let (ds, de) = match g {
                DecodedBslSourceSegment::Copied { decoded_start, decoded_end, .. } => (decoded_start, decoded_end),
                DecodedBslSourceSegment::CollapsedQuote { decoded_start, decoded_end, .. } => (
                    decoded_start,
                    decoded_end,
                ),
                DecodedBslSourceSegment::InsertedLf { decoded_start, decoded_end, .. } => (decoded_start, decoded_end),
            };
            let os = if decoded_start >= ds {
                decoded_start
            } else {
                ds
            };
            let oe = if decoded_end <= de {
                decoded_end
            } else {
                de
            };
            if os < oe {
                assert(segs@[k as int] == g);
                let (ps, pe) = match g {
                    DecodedBslSourceSegment::Copied { decoded_start, decoded_end, source_start, source_end } => {
                        assert(source_end - source_start == decoded_end - decoded_start && source_end < usize::MAX);
                        (source_start + (os - decoded_start), source_start + (oe - decoded_start))
                    },
                    DecodedBslSourceSegment::CollapsedQuote { source_start, source_end, .. } => {
                        assert(source_start <= source_end < usize::MAX);
                        (source_start, source_end)
                    },
                    DecodedBslSourceSegment::InsertedLf { next_indentation_and_marker_end, .. } => {
                        assert(1 <= next_indentation_and_marker_end < usize::MAX);
                        (next_indentation_and_marker_end - 1, next_indentation_and_marker_end)
                    },
                };
                if first.is_none() {
                    first = Some(ps);
                }
                last = Some(pe);
            }
            k = k + 1;
        }
        let (x, y) = match (first, last) {
            (Some(x), Some(y)) => (x, y),
            _ => {
                return None;
            },
        };
        let start = match self.source_position(x) {
            Some(p) => p,
            None => {
                return None;
            },
        };
        let end = match self.source_position(y) {
            Some(p) => p,
            None => {
                return None;
            },
        };
        Some(BslSourceProjection { start, end })
    }
}

/// Each copied segment spans as many source scalars as decoded ones, and
/// every source range ends after offset 0 and before `usize::MAX`.
pub open spec fn projectable(segs: Seq<DecodedBslSourceSegment>) -> bool {
    forall|k: int|
        #![trigger segs[k]]
        0 <= k < segs.len() ==> match segs[k] {
            DecodedBslSourceSegment::Copied { decoded_start, decoded_end, source_start, source_end } => decoded_start
                <= decoded_end && source_end - source_start == decoded_end - decoded_start && source_end < usize::MAX,
            DecodedBslSourceSegment::CollapsedQuote { source_start, source_end, .. } => source_start <= source_end
                < usize::MAX,
            DecodedBslSourceSegment::InsertedLf { next_indentation_and_marker_end, .. } => 1
                <= next_indentation_and_marker_end < usize::MAX,
        }
}

/// Appending a segment that starts where the covered text ends keeps the
/// segments covering the longer text.
pub proof fn lemma_cover_push(
    segs: Seq<DecodedBslSourceSegment>,
    g: DecodedBslSourceSegment,
    decoded_len: int,
    new_len: int,
    source_len: int,
)
    requires
        segments_cover(segs, decoded_len, source_len),
        segment_start(g) == decoded_len,
        segment_end(g) == new_len,
        decoded_len <= new_len,
        segment_source_ok(g, source_len),
    ensures
        segments_cover(segs.push(g), new_len, source_len),
{
    let t = segs.push(g);
    assert forall|k: int| 0 <= k < t.len() implies #[trigger] segment_ok_at(t, k, new_len, source_len) by {
        if k < segs.len() {
            assert(segment_ok_at(segs, k, decoded_len, source_len));
            assert(t[k] == segs[k]);
            if k > 0 {
                assert(t[k - 1] == segs[k - 1]);
            }
            if k + 1 == segs.len() {
                assert(segment_end(segs[k]) == decoded_len);
            }
            assert(segment_end(segs[k]) <= decoded_len) by {
                if segs.len() > 0 {
                    lemma_cover_ends(segs, decoded_len, source_len, k);
                }
            }
        } else {
            assert(t[k] == g);
            if k > 0 {
                assert(t[k - 1] == segs.last());
            }
        }
    }
}

proof fn lemma_cover_ends(segs: Seq<DecodedBslSourceSegment>, decoded_len: int, source_len: int, k: int)
    requires
        segments_cover(segs, decoded_len, source_len),
        0 <= k < segs.len(),
    ensures
        segment_end(segs[k]) <= decoded_len,
{
    assert(segment_ok_at(segs, k, decoded_len, source_len));
}

/// Appending a projectable segment keeps the segments projectable.
pub proof fn lemma_projectable_push(segs: Seq<DecodedBslSourceSegment>, g: DecodedBslSourceSegment)
    requires
        projectable(segs),
        projectable(seq![g]),
    ensures
        projectable(segs.push(g)),
{
    let t = segs.push(g);
    assert forall|k: int| #![trigger t[k]] 0 <= k < t.len() implies match t[k] {
        DecodedBslSourceSegment::Copied { decoded_start, decoded_end, source_start, source_end } => decoded_start
            <= decoded_end && source_end - source_start == decoded_end - decoded_start && source_end < usize::MAX,
        DecodedBslSourceSegment::CollapsedQuote { source_start, source_end, .. } => source_start <= source_end
            < usize::MAX,
        DecodedBslSourceSegment::InsertedLf { next_indentation_and_marker_end, .. } => 1
            <= next_indentation_and_marker_end < usize::MAX,
    } by {
        if k < segs.len() {
            assert(t[k] == segs[k]);
        } else {
            assert(t[k] == seq![g][0]);
        }
    }
}

/// The source map a query keeps beside its text. It takes no part in query
/// equality: every two retained maps compare equal.
#[derive(Debug, Clone, Eq)]
pub struct RetainedSourceMap(pub Option<DecodedBslSourceMap>);

impl PartialEq for RetainedSourceMap {
    fn eq(&self, other: &Self) -> (r: bool) {
        true
    }
}

impl vstd::std_specs::cmp::PartialEqSpecImpl for RetainedSourceMap {
    open spec fn obeys_eq_spec() -> bool {
        true
    }

    open spec fn eq_spec(&self, other: &Self) -> bool {
        true
    }
}

impl RetainedSourceMap {
    /// The retained map's view, if there is one.
    pub open spec fn map_view(&self) -> Option<(Seq<DecodedBslSourceSegment>, Seq<MappedPhysicalLine>)> {
        match self.0 {
            Some(m) => Some(m@),
            None => None,
        }
    }
}

impl DecodedBslSourceMap {
    /// Returns an identical copy of the map.
    pub fn duplicate(&self) -> (r: Self)
        ensures
            r@ == self@,
    {
        let mut segments: Vec<DecodedBslSourceSegment> = Vec::new();
        let mut i: usize = 0;
        while i < self.segments.len()
            invariant
                i <= self.segments@.len(),
                segments@ == self.segments@.take(i as int),
            decreases self.segments@.len() - i,
        {
            segments.push(self.segments[i]);
            i = i + 1;
            assert(segments@ =~= self.segments@.take(i as int));
        }
        assert(self.segments@.take(i as int) =~= self.segments@);
        let mut physical_lines: Vec<MappedPhysicalLine> = Vec::new();
        let mut j: usize = 0;
        while j < self.physical_lines.len()
            invariant
                j <= self.physical_lines@.len(),
                physical_lines@ == self.physical_lines@.take(j as int),
            decreases self.physical_lines@.len() - j,
        {
            physical_lines.push(self.physical_lines[j]);
            j = j + 1;
            assert(physical_lines@ =~= self.physical_lines@.take(j as int));
        }
        assert(self.physical_lines@.take(j as int) =~= self.physical_lines@);
        DecodedBslSourceMap { segments, physical_lines }
    }
}

impl RetainedSourceMap {
    /// Returns an identical copy of the retained map.
    pub fn duplicate(&self) -> (r: Self)
        ensures
            r.map_view() == self.map_view(),
    {
        match &self.0 {
            Some(m) => RetainedSourceMap(Some(m.duplicate())),
            None => RetainedSourceMap(None),
        }
    }
}

} // verus!
