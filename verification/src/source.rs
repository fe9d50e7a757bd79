//! Source evidence: validated paths, one-based positions, spans and locations.

use vstd::prelude::*;

use crate::text::{char_width, chars_of, push_char, utf8_len};

verus! {

/// Maximum UTF-8 size accepted for one source evidence path.
pub const MAX_SOURCE_PATH_BYTES: usize = 4096;

/// Every backslash replaced by a forward slash.
pub open spec fn slash_normalized(s: Seq<char>) -> Seq<char> {
    s.map_values(|c: char| if c == '\\' { '/' } else { c })
}

/// First `/` at or after `i`, or `s.len()`.
pub open spec fn next_slash(s: Seq<char>, i: int) -> int
    decreases s.len() - i,
{
    if i < 0 || i >= s.len() {
        s.len() as int
    } else if s[i] == '/' {
        i
    } else {
        next_slash(s, i + 1)
    }
}

pub proof fn lemma_next_slash_bounds(s: Seq<char>, i: int)
    requires
        0 <= i <= s.len(),
    ensures
        i <= next_slash(s, i) <= s.len(),
    decreases s.len() - i,
{
    if i < s.len() && s[i] != '/' {
        lemma_next_slash_bounds(s, i + 1);
    }
}

/// Verdict on the `/`-separated components starting at `start`: the first empty
/// component is malformed, the first `.` or `..` component is a traversal.
pub open spec fn component_error(s: Seq<char>, start: int) -> Option<SourcePathErrorKind>
    decreases s.len() - start,
{
    if start < 0 || start > s.len() {
        None
    } else {
        let end = next_slash(s, start);
        proof {
            lemma_next_slash_bounds(s, start);
        }
        let component = s.subrange(start, end);
        if component.len() == 0 {
            Some(SourcePathErrorKind::Malformed)
        } else if component == seq!['.'] || component == seq!['.', '.'] {
            Some(SourcePathErrorKind::Traversal)
        } else if end >= s.len() {
            None
        } else {
            component_error(s, end + 1)
        }
    }
}

/// The first UTF-8 byte is an ASCII scalar followed by `:` (a drive prefix shape).
pub open spec fn has_drive_colon(s: Seq<char>) -> bool {
    s.len() >= 2 && (s[0] as u32) < 0x80 && s[1] == ':'
}

/// ASCII letter.
pub open spec fn is_ascii_letter(c: char) -> bool {
    ('a' <= c && c <= 'z') || ('A' <= c && c <= 'Z')
}

/// Validation verdict for an already slash-normalized path.
pub open spec fn path_error(s: Seq<char>) -> Option<SourcePathErrorKind> {
    if s.len() == 0 {
        Some(SourcePathErrorKind::Empty)
    } else if utf8_len(s) > MAX_SOURCE_PATH_BYTES {
        Some(SourcePathErrorKind::TooLong)
    } else if s.contains('\0') {
        Some(SourcePathErrorKind::Malformed)
    } else if s.last() == '/' {
        Some(SourcePathErrorKind::Malformed)
    } else {
        let start: int = if s.len() >= 2 && s[0] == '/' && s[1] == '/' {
            2
        } else if s[0] == '/' {
            1
        } else if has_drive_colon(s) {
            if !is_ascii_letter(s[0]) || !(s.len() >= 3 && s[2] == '/') {
                -1
            } else {
                3
            }
        } else {
            0
        };
        if start < 0 || start >= s.len() {
            Some(SourcePathErrorKind::Malformed)
        } else {
            component_error(s, start)
        }
    }
}

/// Validated UTF-8 path retained as source evidence, with `/` separators.
#[derive(Debug, Clone, PartialEq, Eq, PartialOrd, Ord, Hash)]
pub struct SourcePath(String);

impl View for SourcePath {
    type V = Seq<char>;

    closed spec fn view(&self) -> Seq<char> {
        self.0@
    }
}

impl SourcePath {
    /// Creates a canonical source evidence path: backslashes become `/`, then the
    /// result is rejected when it is empty, over the byte bound, malformed or
    /// holds a `.`/`..` component.
    pub fn new(value: &str) -> (r: Result<Self, SourcePathError>)
        ensures
            r matches Ok(p) ==> p@ == slash_normalized(value@) && path_error(p@) is None,
            r matches Err(e) ==> path_error(slash_normalized(value@)) == Some(e@),
            r is Ok <==> path_error(slash_normalized(value@)) is None,
    {
        let chars = chars_of(value);
        let mut normalized: Vec<char> = Vec::new();
        let mut text = String::new();
        let mut i: usize = 0;
        while i < chars.len()
            invariant
                i <= chars@.len(),
                chars@ == value@,
                normalized@ == slash_normalized(value@).take(i as int),
                text@ == normalized@,
            decreases chars@.len() - i,
        {
            let c = if chars[i] == '\\' { '/' } else { chars[i] };
            normalized.push(c);
            push_char(&mut text, c);
            i = i + 1;
        }
        assert(normalized@ == slash_normalized(value@));
        match validate_source_path(&normalized) {
            Some(kind) => Err(SourcePathError { kind }),
            None => Ok(SourcePath(text)),
        }
    }

    /// Returns the slash-normalized path.
    pub fn as_str(&self) -> (r: &str)
        ensures
            r@ == self@,
    {
        self.0.as_str()
    }
}

/// Returns the UTF-8 byte length of `v`.
fn utf8_length(v: &[char]) -> (r: usize)
    requires
        v@.len() <= usize::MAX / 4,
    ensures
        r as nat == utf8_len(v@),
{
    let mut total: usize = 0;
    let mut i: usize = 0;
    while i < v.len()
        invariant
            i <= v@.len() <= usize::MAX / 4,
            total as nat == utf8_len(v@.take(i as int)),
            total <= 4 * i,
        decreases v@.len() - i,
    {
        assert(v@.take(i + 1).drop_last() == v@.take(i as int));
        total = total + char_width(v[i]);
        i = i + 1;
    }
    assert(v@.take(v@.len() as int) == v@);
    total
}

/// Returns `next_slash(v, i)`.
fn find_slash(v: &[char], i: usize) -> (r: usize)
    requires
        i <= v@.len(),
    ensures
        r as int == next_slash(v@, i as int),
        i <= r <= v@.len(),
        forall|j: int| i <= j < r ==> v@[j] != '/',
        r < v@.len() ==> v@[r as int] == '/',
{
    let mut k = i;
    while k < v.len() && v[k] != '/'
        invariant
            i <= k <= v@.len(),
            next_slash(v@, k as int) == next_slash(v@, i as int),
            forall|j: int| i <= j < k ==> v@[j] != '/',
        decreases v@.len() - k,
    {
        k = k + 1;
    }
    k
}

/// Returns `component_error(v, start)`.
fn check_components(v: &[char], start: usize) -> (r: Option<SourcePathErrorKind>)
    requires
        start <= v@.len(),
    ensures
        r == component_error(v@, start as int),
{
    let mut s = start;
    loop
        invariant
            start <= s <= v@.len(),
            component_error(v@, s as int) == component_error(v@, start as int),
        decreases v@.len() - s,
    {
        let end = find_slash(v, s);
        let ghost component = v@.subrange(s as int, end as int);
        if end == s {
            return Some(SourcePathErrorKind::Malformed);
        }
        if end - s == 1 && v[s] == '.' {
            assert(component =~= seq!['.']);
            return Some(SourcePathErrorKind::Traversal);
        }
        if end - s == 2 && v[s] == '.' && v[s + 1] == '.' {
            assert(component =~= seq!['.', '.']);
            return Some(SourcePathErrorKind::Traversal);
        }
        assert(component != seq!['.']) by {
            if end - s == 1 {
                assert(component[0] == v@[s as int]);
            }
        }
        assert(component != seq!['.', '.']) by {
            if end - s == 2 {
                assert(component[0] == v@[s as int]);
                assert(component[1] == v@[s + 1]);
            }
        }
        if end == v.len() {
            return None;
        }
        s = end + 1;
    }
}

/// Returns `path_error(v)` for an already slash-normalized path.
fn validate_source_path(v: &[char]) -> (r: Option<SourcePathErrorKind>)
    ensures
        r == path_error(v@),
{
    let n = v.len();
    if n == 0 {
        return Some(SourcePathErrorKind::Empty);
    }
    if n > MAX_SOURCE_PATH_BYTES {
        proof {
            lemma_utf8_len_at_least_len(v@);
        }
        return Some(SourcePathErrorKind::TooLong);
    }
    if utf8_length(v) > MAX_SOURCE_PATH_BYTES {
        return Some(SourcePathErrorKind::TooLong);
    }
    let mut i: usize = 0;
    while i < n
        invariant
            i <= n == v@.len(),
            n > 0,
            utf8_len(v@) <= MAX_SOURCE_PATH_BYTES,
            forall|j: int| 0 <= j < i ==> v@[j] != '\0',
        decreases n - i,
    {
        if v[i] == '\0' {
            assert(v@.contains('\0')) by {
                assert(v@[i as int] == '\0');
            }
            return Some(SourcePathErrorKind::Malformed);
        }
        i = i + 1;
    }
    assert(!v@.contains('\0'));
    if v[n - 1] == '/' {
        return Some(SourcePathErrorKind::Malformed);
    }
    let start: usize = if n >= 2 && v[0] == '/' && v[1] == '/' {
        2
    } else if v[0] == '/' {
        1
    } else if n >= 2 && (v[0] as u32) < 0x80 && v[1] == ':' {
        let first = v[0];
        let letter = ('a' <= first && first <= 'z') || ('A' <= first && first <= 'Z');
        if !letter || !(n >= 3 && v[2] == '/') {
            return Some(SourcePathErrorKind::Malformed);
        }
        3
    } else {
        0
    };
    if start >= n {
        return Some(SourcePathErrorKind::Malformed);
    }
    check_components(v, start)
}

/// A scalar sequence has at least as many UTF-8 bytes as scalars.
proof fn lemma_utf8_len_at_least_len(s: Seq<char>)
    ensures
        utf8_len(s) >= s.len(),
    decreases s.len(),
{
    if s.len() > 0 {
        lemma_utf8_len_at_least_len(s.drop_last());
    }
}

/// Normalization changes nothing on a path that holds no backslash.
proof fn lemma_normalized_without_backslash(s: Seq<char>)
    requires
        !s.contains('\\'),
    ensures
        slash_normalized(s) == s,
{
    assert forall|i: int| 0 <= i < s.len() implies slash_normalized(s)[i] == s[i] by {
        assert(s[i] != '\\');
    }
    assert(slash_normalized(s) =~= s);
}

/// Creating a source path from an accepted path's own text gives back that path:
/// accepted paths are already in canonical `/`-separated form.
pub proof fn law_source_path_normalization_is_idempotent(value: Seq<char>)
    requires
        path_error(slash_normalized(value)) is None,
    ensures
        slash_normalized(slash_normalized(value)) == slash_normalized(value),
        path_error(slash_normalized(slash_normalized(value))) is None,
{
    let n = slash_normalized(value);
    assert(!n.contains('\\')) by {
        if n.contains('\\') {
            let i = choose|i: int| 0 <= i < n.len() && n[i] == '\\';
            assert(n[i] == (if value[i] == '\\' { '/' } else { value[i] }));
        }
    }
    lemma_normalized_without_backslash(n);
}

/// Closed source-path validation failure kind.
#[derive(Debug, Clone, Copy, PartialEq, Eq)]
pub enum SourcePathErrorKind {
    /// The value is empty.
    Empty,
    /// The UTF-8 byte bound is exceeded.
    TooLong,
    /// A `.` or `..` traversal component is present.
    Traversal,
    /// The path has an unsupported shape or separator layout.
    Malformed,
}

/// Error returned for an invalid source evidence path.
#[derive(Debug, Clone, Copy, PartialEq, Eq)]
pub struct SourcePathError {
    kind: SourcePathErrorKind,
}

impl View for SourcePathError {
    type V = SourcePathErrorKind;

    closed spec fn view(&self) -> SourcePathErrorKind {
        self.kind
    }
}

impl SourcePathError {
    /// Returns the closed failure kind.
    pub fn kind(self) -> (r: SourcePathErrorKind)
        ensures
            r == self@,
    {
        self.kind
    }

    /// Returns the human-readable error text.
    pub fn message(self) -> (r: &'static str) {
        match self.kind {
            SourcePathErrorKind::Empty => "source path must not be empty",
            SourcePathErrorKind::TooLong => "source path exceeds the byte bound",
            SourcePathErrorKind::Traversal => "source path contains a traversal component",
            SourcePathErrorKind::Malformed => "source path is malformed",
        }
    }
}

/// One-based source coordinate.
#[derive(Debug, Clone, Copy, PartialEq, Eq, PartialOrd, Ord, Hash)]
pub struct SourcePosition {
    line: u32,
    column: u32,
}

impl SourcePosition {
    /// Line of the position.
    pub closed spec fn spec_line(self) -> u32 {
        self.line
    }

    /// Column of the position.
    pub closed spec fn spec_column(self) -> u32 {
        self.column
    }

    /// Creates a one-based source position; a zero coordinate is rejected.
    pub fn new(line: u32, column: u32) -> (r: Result<Self, SourcePositionError>)
        ensures
            r is Err <==> (line == 0 || column == 0),
            r matches Ok(p) ==> p.spec_line() == line && p.spec_column() == column,
    {
        if line == 0 || column == 0 {
            return Err(SourcePositionError);
        }
        Ok(SourcePosition { line, column })
    }

    /// Returns the one-based line.
    pub fn line(self) -> (r: u32)
        ensures
            r == self.spec_line(),
    {
        self.line
    }

    /// Returns the one-based column.
    pub fn column(self) -> (r: u32)
        ensures
            r == self.spec_column(),
    {
        self.column
    }
}

/// Error returned for a zero source coordinate.
#[derive(Debug, Clone, Copy, PartialEq, Eq)]
pub struct SourcePositionError;

/// `end` precedes `start` in line-then-column order.
pub open spec fn position_precedes(end: SourcePosition, start: SourcePosition) -> bool {
    end.spec_line() < start.spec_line() || (end.spec_line() == start.spec_line()
        && end.spec_column() < start.spec_column())
}

/// Half-open source range, or a navigation point when both positions are equal.
#[derive(Debug, Clone, Copy, PartialEq, Eq, PartialOrd, Ord, Hash)]
pub struct SourceSpan {
    start: SourcePosition,
    end: SourcePosition,
}

impl SourceSpan {
    /// Inclusive start of the span.
    pub closed spec fn spec_start(self) -> SourcePosition {
        self.start
    }

    /// Exclusive end of the span.
    pub closed spec fn spec_end(self) -> SourcePosition {
        self.end
    }

    /// Creates an ordered half-open source span; a reversed span is rejected.
    pub fn new(start: SourcePosition, end: SourcePosition) -> (r: Result<Self, SourceSpanError>)
        ensures
            r is Err <==> position_precedes(end, start),
            r matches Ok(s) ==> s.spec_start() == start && s.spec_end() == end,
    {
        if end.line < start.line || (end.line == start.line && end.column < start.column) {
            return Err(SourceSpanError);
        }
        Ok(SourceSpan { start, end })
    }

    /// Returns the inclusive start position.
    pub fn start(self) -> (r: SourcePosition)
        ensures
            r == self.spec_start(),
    {
        self.start
    }

    /// Returns the exclusive end position, equal to start for a point.
    pub fn end(self) -> (r: SourcePosition)
        ensures
            r == self.spec_end(),
    {
        self.end
    }
}

/// Error returned for a reversed source span.
#[derive(Debug, Clone, Copy, PartialEq, Eq)]
pub struct SourceSpanError;

/// Typed source evidence attached to a semantic fact.
#[derive(Debug, Clone, PartialEq, Eq, PartialOrd, Ord, Hash)]
pub struct SourceLocation {
    path: SourcePath,
    span: Option<SourceSpan>,
}

impl SourceLocation {
    /// Path of the location.
    pub closed spec fn spec_path(&self) -> Seq<char> {
        self.path@
    }

    /// Span of the location.
    pub closed spec fn spec_span(&self) -> Option<SourceSpan> {
        self.span
    }

    /// Creates file or ranged source evidence.
    pub fn new(path: SourcePath, span: Option<SourceSpan>) -> (r: Self)
        ensures
            r.spec_path() == path@,
            r.spec_span() == span,
    {
        SourceLocation { path, span }
    }

    /// Returns the source evidence path.
    pub fn path(&self) -> (r: &SourcePath)
        ensures
            r@ == self.spec_path(),
    {
        &self.path
    }

    /// Returns the optional half-open source span.
    pub fn span(&self) -> (r: Option<SourceSpan>)
        ensures
            r == self.spec_span(),
    {
        self.span
    }
}

} // verus!
