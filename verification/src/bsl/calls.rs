//! Extraction of simple call expressions from BSL source.
//!
//! A call is a word (letters, digits, `_`, `.`) followed, after optional
//! whitespace, by `(`. Words inside string literals or after `//` are kept as
//! unsupported legacy candidates. A member call whose receiver ends the
//! previous line (`Module.` then `Target()`, or `Module` then `.Target()`)
//! inherits that receiver.

use vstd::prelude::*;

use crate::bsl::declarations::{
    directive_at, directive_starts, lemma_lines_from_ordered, lemma_text_start_bounds,
    lemma_unbounded_parse_errors, line_spans, line_text, line_text_of, lines_wf, module_shadows,
    parse_callable_scopes_bounded, parse_module, scope_shadows, scope_views, source_lines,
    text_start, text_start_of, lemma_byte_at_strict, offsets_wf, ModuleView, ParsedCallableModule,
    ParsedCallableScope, ScopeView,
};
use crate::bsl::lexical::{comment_at, ident_start, slice_chars, spans, word_char};
use crate::bsl::{lowercase, to_lowercase, BslIdentifierRange, BslParseError, ParseErrorView};
use crate::entity::{EntityId, EntityName};
use crate::text::{
    all_ws, back_whitespace, back_ws, is_alphabetic, is_alphanumeric, lemma_back_ws_take,
    push_char, push_str, skip_whitespace, skip_ws, string_of_range, trim, trim_end, trim_range,
    byte_at, byte_offsets, chars_of, decimal, push_decimal, utf8_len,
    unicode_alphanumeric, unicode_whitespace, is_whitespace, text_equal,
};

verus! {

/// Lexical form of one extracted direct BSL call target.
#[derive(Debug, Clone, Copy, PartialEq, Eq, PartialOrd, Ord, Hash, Structural)]
pub enum BslCallKind {
    /// An unqualified `CallableName(...)` target.
    Local,
    /// A `ModuleName.CallableName(...)` target.
    Qualified,
    /// A call-shaped token retained only for legacy semantic compatibility.
    Unsupported,
}

// ---------------------------------------------------------------- receivers

/// Receiver of a member call carried from the end of one line to the next.
pub enum ContView {
    Direct { qualifier: Seq<char>, supported: bool, dot_consumed: bool },
    Computed { dot_consumed: bool },
}

/// Whether the receiver's dot has been seen already.
pub open spec fn dot_consumed(c: ContView) -> bool {
    match c {
        ContView::Direct { dot_consumed, .. } => dot_consumed,
        ContView::Computed { dot_consumed } => dot_consumed,
    }
}

/// Words that look like calls but are statements or declarations.
pub open spec fn excluded(candidate: Seq<char>) -> bool {
    let l = lowercase(candidate);
    ||| l == "if"@ || l == "если"@ || l == "elsif"@ || l == "иначеесли"@
    ||| l == "while"@ || l == "пока"@ || l == "for"@ || l == "для"@
    ||| l == "foreach"@ || l == "длякаждого"@ || l == "return"@ || l == "возврат"@
    ||| l == "procedure"@ || l == "процедура"@ || l == "function"@ || l == "функция"@
}

/// Start of the trailing run of word scalars of `r[..e]`.
pub open spec fn word_start_back(r: Seq<char>, e: int) -> int
    decreases e,
{
    if e <= 0 || e > r.len() {
        0
    } else if !word_char(r[e - 1]) {
        e
    } else {
        word_start_back(r, e - 1)
    }
}

/// `u`, once trailing whitespace is dropped, ends with `.`, `)` or `]`.
pub open spec fn ends_with_closer(u: Seq<char>) -> bool {
    let v = trim_end(u);
    v.len() > 0 && (v.last() == '.' || v.last() == ')' || v.last() == ']')
}

/// Classifies the receiver text before a member access: its trailing word is a
/// direct qualifier when it starts like an identifier; the qualifier is
/// supported unless it is a keyword or itself follows `.`, `)` or `]`.
pub open spec fn classify_receiver(r: Seq<char>, dot_consumed: bool) -> ContView {
    let start = word_start_back(r, r.len() as int);
    let q = r.skip(start);
    if !(q.len() > 0 && ident_start(q[0])) {
        ContView::Computed { dot_consumed }
    } else {
        ContView::Direct {
            qualifier: q,
            supported: !excluded(q) && !ends_with_closer(r.take(start)),
            dot_consumed,
        }
    }
}

/// The text of a line outside string literals (quotes kept) up to its comment.
pub open spec fn cont_visible(t: Seq<char>, i: int, in_string: bool, acc: Seq<char>) -> Seq<char>
    decreases t.len() - i,
{
    if i < 0 || i >= t.len() {
        acc
    } else if t[i] == '"' {
        if in_string && i + 1 < t.len() && t[i + 1] == '"' {
            cont_visible(t, i + 2, in_string, acc.push('"'))
        } else {
            cont_visible(t, i + 1, !in_string, acc.push('"'))
        }
    } else if !in_string && comment_at(t, i) {
        acc
    } else if !in_string {
        cont_visible(t, i + 1, in_string, acc.push(t[i]))
    } else {
        cont_visible(t, i + 1, in_string, acc)
    }
}

/// What the end of a line does to the carried receiver.
pub enum ContUpdate {
    Preserve,
    Clear,
    Receiver(ContView),
}

/// The receiver carried past line `t`, which starts inside a literal when
/// `in_string` holds: unchanged after an empty line, a new receiver after a
/// line ending with `.`, a word, `)` or `]`, and none otherwise.
pub open spec fn continuation_after(t: Seq<char>, in_string: bool) -> ContUpdate {
    let v = trim_end(cont_visible(t, 0, in_string, Seq::empty()));
    if v.len() == 0 {
        ContUpdate::Preserve
    } else if v.last() == '.' {
        ContUpdate::Receiver(classify_receiver(trim_end(v.drop_last()), true))
    } else if word_char(v.last()) || v.last() == ')' || v.last() == ']' {
        ContUpdate::Receiver(classify_receiver(v, false))
    } else {
        ContUpdate::Clear
    }
}

/// Applies a line's update to the carried receiver.
pub open spec fn apply_update(old: Option<ContView>, u: ContUpdate) -> Option<ContView> {
    match u {
        ContUpdate::Preserve => old,
        ContUpdate::Clear => None,
        ContUpdate::Receiver(c) => Some(c),
    }
}

/// Receiver carried from one line to the next.
pub enum MemberContinuation {
    DirectQualifier { qualifier: String, supported: bool, dot_consumed: bool },
    Computed { dot_consumed: bool },
}

impl View for MemberContinuation {
    type V = ContView;

    open spec fn view(&self) -> ContView {
        match self {
            MemberContinuation::DirectQualifier { qualifier, supported, dot_consumed } => {
                ContView::Direct {
                    qualifier: qualifier@,
                    supported: *supported,
                    dot_consumed: *dot_consumed,
                }
            },
            MemberContinuation::Computed { dot_consumed } => ContView::Computed {
                dot_consumed: *dot_consumed,
            },
        }
    }
}

/// The view of an optional receiver.
pub open spec fn cont_view(c: Option<MemberContinuation>) -> Option<ContView> {
    match c {
        Some(m) => Some(m@),
        None => None,
    }
}

/// Returns whether `candidate` is one of the excluded keywords.
fn is_excluded_keyword(candidate: &str) -> (r: bool)
    ensures
        r == excluded(candidate@),
{
    let l = to_lowercase(candidate);
    let s = l.as_str();
    let keywords: [&str; 16] = [
        "if",
        "если",
        "elsif",
        "иначеесли",
        "while",
        "пока",
        "for",
        "для",
        "foreach",
        "длякаждого",
        "return",
        "возврат",
        "procedure",
        "процедура",
        "function",
        "функция",
    ];
    let mut i: usize = 0;
    while i < 16
        invariant
            i <= 16,
            s@ == lowercase(candidate@),
            keywords@ == seq![
                "if",
                "если",
                "elsif",
                "иначеесли",
                "while",
                "пока",
                "for",
                "для",
                "foreach",
                "длякаждого",
                "return",
                "возврат",
                "procedure",
                "процедура",
                "function",
                "функция",
            ],
            forall|j: int| 0 <= j < i ==> s@ != (#[trigger] keywords@[j])@,
        decreases 16 - i,
    {
        if text_equal(s, keywords[i]) {
            return true;
        }
        i = i + 1;
    }
    assert(s@ != keywords@[0]@ && s@ != keywords@[1]@ && s@ != keywords@[2]@ && s@ != keywords@[3]@);
    assert(s@ != keywords@[4]@ && s@ != keywords@[5]@ && s@ != keywords@[6]@ && s@ != keywords@[7]@);
    assert(s@ != keywords@[8]@ && s@ != keywords@[9]@ && s@ != keywords@[10]@ && s@ != keywords@[11]@);
    assert(s@ != keywords@[12]@ && s@ != keywords@[13]@ && s@ != keywords@[14]@ && s@ != keywords@[15]@);
    false
}

/// Returns `word_start_back(r, e)`.
fn find_word_start_back(r: &[char], e: usize) -> (k: usize)
    requires
        e <= r@.len(),
    ensures
        k as int == word_start_back(r@, e as int),
        k <= e,
{
    let mut k = e;
    while k > 0 && (r[k - 1] == '_' || is_alphanumeric(r[k - 1]))
        invariant
            k <= e <= r@.len(),
            word_start_back(r@, k as int) == word_start_back(r@, e as int),
        decreases k,
    {
        k = k - 1;
    }
    k
}

/// Returns `ends_with_closer(u[..n])`.
fn ends_with_closer_before(u: &[char], n: usize) -> (r: bool)
    requires
        n <= u@.len(),
    ensures
        r == ends_with_closer(u@.take(n as int)),
{
    let b = back_whitespace(u, n);
    proof {
        lemma_back_ws_take(u@, n as int, n as int);
        assert(u@.take(n as int).len() == n);
    }
    if b == 0 {
        return false;
    }
    let c = u[b - 1];
    c == '.' || c == ')' || c == ']'
}

/// Returns `classify_receiver(r, dot_consumed)`.
fn classify_member_receiver(r: &[char], dot_consumed: bool) -> (m: MemberContinuation)
    ensures
        m@ == classify_receiver(r@, dot_consumed),
{
    let start = find_word_start_back(r, r.len());
    if !(start < r.len() && (r[start] == '_' || is_alphabetic(r[start]))) {
        return MemberContinuation::Computed { dot_consumed };
    }
    let q = string_of_range(r, start, r.len());
    assert(q@ == r@.skip(start as int));
    let supported = !is_excluded_keyword(q.as_str()) && !ends_with_closer_before(r, start);
    MemberContinuation::DirectQualifier { qualifier: q, supported, dot_consumed }
}

/// Returns `continuation_after(t, in_string)`.
fn continuation_after_line(t: &[char], in_string: bool) -> (r: Option<Option<MemberContinuation>>)
    ensures
        match r {
            None => continuation_after(t@, in_string) is Preserve,
            Some(None) => continuation_after(t@, in_string) is Clear,
            Some(Some(m)) => continuation_after(t@, in_string) == ContUpdate::Receiver(m@),
        },
{
    let mut visible: Vec<char> = Vec::new();
    let mut open = in_string;
    let mut i: usize = 0;
    let ghost target = cont_visible(t@, 0, in_string, Seq::empty());
    while i < t.len()
        invariant
            i <= t@.len(),
            target == cont_visible(t@, 0, in_string, Seq::empty()),
            cont_visible(t@, i as int, open, visible@) == target,
        decreases t@.len() - i,
    {
        let c = t[i];
        if c == '"' {
            visible.push('"');
            if open && i + 1 < t.len() && t[i + 1] == '"' {
                i = i + 2;
                continue;
            }
            open = !open;
        } else if !open && i + 1 < t.len() && c == '/' && t[i + 1] == '/' {
            i = t.len();
            continue;
        } else if !open {
            visible.push(c);
        }
        i = i + 1;
    }
    assert(cont_visible(t@, i as int, open, visible@) == visible@);
    let b = back_whitespace(&visible, visible.len());
    assert(visible@.take(visible@.len() as int) == visible@);
    if b == 0 {
        return None;
    }
    let last = visible[b - 1];
    if last == '.' {
        let b2 = back_whitespace(&visible, b - 1);
        proof {
            lemma_back_ws_take(visible@, b - 1, b - 1);
            assert(visible@.take(b as int).drop_last() == visible@.take(b - 1));
        }
        let receiver = slice_chars(&visible, 0, b2);
        assert(receiver@ == visible@.take(b2 as int));
        assert(visible@.take(b - 1).take(b2 as int) == visible@.take(b2 as int));
        return Some(Some(classify_member_receiver(&receiver, true)));
    }
    if last == '_' || is_alphanumeric(last) || last == ')' || last == ']' {
        let receiver = slice_chars(&visible, 0, b);
        assert(receiver@ == visible@.take(b as int));
        return Some(Some(classify_member_receiver(&receiver, false)));
    }
    Some(None)
}

// ---------------------------------------------------------------- one line

/// A scalar that may continue a call word: `_`, `.` or a Unicode alphanumeric scalar.
pub open spec fn ident_cont(c: char) -> bool {
    c == '_' || c == '.' || unicode_alphanumeric(c)
}

/// End of the call word that continues at `i`.
pub open spec fn ident_end(t: Seq<char>, i: int) -> int
    decreases t.len() - i,
{
    if 0 <= i < t.len() && ident_cont(t[i]) {
        ident_end(t, i + 1)
    } else {
        i
    }
}

/// Index of the last `.` of `t[a..b]`, or `-1`.
pub open spec fn last_dot(t: Seq<char>, a: int, b: int) -> int
    decreases b - a,
{
    if b <= a {
        -1
    } else if t[b - 1] == '.' {
        b - 1
    } else {
        last_dot(t, a, b - 1)
    }
}

/// The last non-whitespace scalar before `start` is `.`.
pub open spec fn member_prefix(t: Seq<char>, start: int) -> bool {
    let b = back_ws(t, start);
    b > 0 && t[b - 1] == '.'
}

/// Target text and kind of a call word `candidate`: a receiver makes it a
/// member call, a word without dots is local, a dotted word is qualified, and
/// any word inside a literal or comment is unsupported.
pub open spec fn classify_call(
    candidate: Seq<char>,
    unqualified: bool,
    legacy: bool,
    member: Option<ContView>,
) -> (Seq<char>, BslCallKind) {
    let inferred = match member {
        Some(ContView::Direct { qualifier, supported, .. }) => (
            qualifier + "."@ + candidate,
            if supported {
                BslCallKind::Qualified
            } else {
                BslCallKind::Unsupported
            },
        ),
        Some(ContView::Computed { .. }) => (candidate, BslCallKind::Unsupported),
        None => if unqualified {
            (candidate, BslCallKind::Local)
        } else {
            (candidate, BslCallKind::Qualified)
        },
    };
    (inferred.0, if legacy { BslCallKind::Unsupported } else { inferred.1 })
}

/// A call found on one line: target, kind and the scalar range of its final word.
pub struct RawCall {
    pub target: Seq<char>,
    pub kind: BslCallKind,
    pub start: int,
    pub end: int,
}

/// The carried receiver applies to a call word at `start` when the dot was
/// consumed and nothing precedes the word, or the dot was not consumed and
/// exactly `.` precedes it.
pub open spec fn inherited(t: Seq<char>, start: int, cont: Option<ContView>) -> Option<ContView> {
    match cont {
        None => None,
        Some(c) => if (dot_consumed(c) && all_ws(t.take(start))) || (!dot_consumed(c) && trim(
            t.take(start),
        ) == seq!['.']) {
            Some(c)
        } else {
            None
        },
    }
}

/// The call, if any, of the word `t[start..end]`.
pub open spec fn call_at(t: Seq<char>, start: int, end: int, legacy: bool, cont: Option<ContView>) -> Option<
    RawCall,
> {
    let candidate = t.subrange(start, end);
    let look = skip_ws(t, end);
    if !(look < t.len() && t[look] == '(') || excluded(candidate) {
        None
    } else {
        let d = last_dot(t, start, end);
        let final_start = if d >= 0 { d + 1 } else { start };
        if final_start >= end {
            None
        } else {
            let unqualified = final_start == start;
            let inh = if unqualified { inherited(t, start, cont) } else { None };
            let current = if unqualified && member_prefix(t, start) {
                Some(classify_receiver(trim_end(trim_end(t.take(start)).drop_last()), true))
            } else {
                None
            };
            let effective = if inh is Some { inh } else { current };
            let c = classify_call(candidate, unqualified, legacy, effective);
            Some(RawCall { target: c.0, kind: c.1, start: final_start, end })
        }
    }
}

/// Calls of line `t` from scalar `i` on, appended to `acc`, and whether a
/// string literal is open at the end of the line.
pub open spec fn scan_calls(
    t: Seq<char>,
    i: int,
    in_string: bool,
    in_comment: bool,
    cont: Option<ContView>,
    acc: Seq<RawCall>,
) -> (Seq<RawCall>, bool)
    decreases t.len() - i,
{
    if i < 0 || i >= t.len() {
        (acc, in_string)
    } else if !in_comment && t[i] == '"' {
        if i + 1 < t.len() && t[i + 1] == '"' && in_string {
            scan_calls(t, i + 2, in_string, in_comment, cont, acc)
        } else {
            scan_calls(t, i + 1, !in_string, in_comment, cont, acc)
        }
    } else if !in_string && !in_comment && comment_at(t, i) {
        scan_calls(t, i + 2, in_string, true, cont, acc)
    } else if !ident_start(t[i]) {
        scan_calls(t, i + 1, in_string, in_comment, cont, acc)
    } else {
        let end = ident_end(t, i + 1);
        let next = match call_at(t, i, end, in_string || in_comment, cont) {
            Some(c) => acc.push(c),
            None => acc,
        };
        proof {
            lemma_ident_end_bounds(t, i + 1);
        }
        scan_calls(t, end, in_string, in_comment, cont, next)
    }
}

pub proof fn lemma_ident_end_bounds(t: Seq<char>, i: int)
    requires
        0 <= i <= t.len(),
    ensures
        i <= ident_end(t, i) <= t.len(),
    decreases t.len() - i,
{
    if i < t.len() && ident_cont(t[i]) {
        lemma_ident_end_bounds(t, i + 1);
    }
}

/// A call found by the line scanner.
pub struct ExtractedCall {
    target: String,
    kind: BslCallKind,
    start: usize,
    end: usize,
}

impl View for ExtractedCall {
    type V = RawCall;

    closed spec fn view(&self) -> RawCall {
        RawCall {
            target: self.target@,
            kind: self.kind,
            start: self.start as int,
            end: self.end as int,
        }
    }
}

/// The views of extracted calls.
pub open spec fn raw_views(v: Seq<ExtractedCall>) -> Seq<RawCall> {
    v.map_values(|c: ExtractedCall| c@)
}

/// Returns `classify_call(candidate, unqualified, legacy, member)`.
fn classify_extracted_call(
    candidate: &str,
    unqualified: bool,
    legacy: bool,
    member: Option<&MemberContinuation>,
) -> (r: (String, BslCallKind))
    ensures
        (r.0@, r.1) == classify_call(
            candidate@,
            unqualified,
            legacy,
            match member {
                Some(m) => Some(m@),
                None => None,
            },
        ),
{
    let (target, inferred) = match member {
        Some(MemberContinuation::DirectQualifier { qualifier, supported, .. }) => {
            let mut t = String::new();
            push_str(&mut t, qualifier.as_str());
            push_char(&mut t, '.');
            push_str(&mut t, candidate);
            proof {
                reveal_strlit(".");
            }
            assert(t@ == qualifier@ + "."@ + candidate@);
            (
                t,
                if *supported {
                    BslCallKind::Qualified
                } else {
                    BslCallKind::Unsupported
                },
            )
        },
        Some(MemberContinuation::Computed { .. }) => (candidate.to_owned(), BslCallKind::Unsupported),
        None => {
            if unqualified {
                (candidate.to_owned(), BslCallKind::Local)
            } else {
                (candidate.to_owned(), BslCallKind::Qualified)
            }
        },
    };
    let kind = if legacy {
        BslCallKind::Unsupported
    } else {
        inferred
    };
    (target, kind)
}

/// Returns `last_dot(t, a, b)` as an optional index.
fn find_last_dot(t: &[char], a: usize, b: usize) -> (r: Option<usize>)
    requires
        a <= b <= t@.len(),
    ensures
        match r {
            Some(d) => last_dot(t@, a as int, b as int) == d as int && a <= d < b,
            None => last_dot(t@, a as int, b as int) == -1,
        },
{
    let mut k = b;
    while k > a
        invariant
            a <= k <= b <= t@.len(),
            last_dot(t@, a as int, k as int) == last_dot(t@, a as int, b as int),
        decreases k,
    {
        if t[k - 1] == '.' {
            return Some(k - 1);
        }
        k = k - 1;
    }
    None
}

/// Returns whether every scalar of `t[..n]` is whitespace.
fn all_whitespace_before(t: &[char], n: usize) -> (r: bool)
    requires
        n <= t@.len(),
    ensures
        r == all_ws(t@.take(n as int)),
{
    let mut i: usize = 0;
    while i < n
        invariant
            i <= n <= t@.len(),
            forall|j: int| 0 <= j < i ==> unicode_whitespace(#[trigger] t@[j]),
        decreases n - i,
    {
        if !is_whitespace(t[i]) {
            assert(t@.take(n as int)[i as int] == t@[i as int]);
            return false;
        }
        i = i + 1;
    }
    assert forall|j: int| 0 <= j < n implies unicode_whitespace(#[trigger] t@.take(n as int)[j]) by {
        assert(t@.take(n as int)[j] == t@[j]);
    }
    true
}

/// Returns `inherited(t, start, cont)` as a borrowed receiver.
fn inherited_member<'a>(t: &[char], start: usize, cont: &'a Option<MemberContinuation>) -> (r: Option<
    &'a MemberContinuation,
>)
    requires
        start <= t@.len(),
    ensures
        match r {
            Some(m) => inherited(t@, start as int, cont_view(*cont)) == Some(m@),
            None => inherited(t@, start as int, cont_view(*cont)) is None,
        },
{
    match cont {
        None => {
            assert(cont_view(*cont) is None);
            None
        },
        Some(c) => {
            let consumed = match c {
                MemberContinuation::DirectQualifier { dot_consumed, .. } => *dot_consumed,
                MemberContinuation::Computed { dot_consumed } => *dot_consumed,
            };
            let applies = if consumed {
                all_whitespace_before(t, start)
            } else {
                let prefix = slice_chars(t, 0, start);
                assert(prefix@ == t@.take(start as int));
                let (a, b) = trim_range(&prefix);
                let ok = b > a && b - a == 1 && prefix[a] == '.';
                proof {
                    if ok {
                        assert(prefix@.subrange(a as int, b as int) =~= seq!['.']);
                    }
                    assert(prefix@.subrange(a as int, b as int) == trim(prefix@));
                    if trim(prefix@) == seq!['.'] {
                        assert(trim(prefix@).len() == 1);
                        assert(b - a == 1);
                        assert(trim(prefix@)[0] == '.');
                        assert(prefix@.subrange(a as int, b as int)[0] == prefix@[a as int]);
                    }
                }
                ok
            };
            assert(consumed == dot_consumed(c@));
            assert(cont_view(*cont) == Some(c@));
            if applies {
                Some(c)
            } else {
                None
            }
        },
    }
}

/// Returns the receiver text before a member access at `start`:
/// `trim_end(trim_end(t[..start]) without its final '.')`.
fn member_receiver(t: &[char], start: usize) -> (r: Vec<char>)
    requires
        start <= t@.len(),
        member_prefix(t@, start as int),
    ensures
        r@ == trim_end(trim_end(t@.take(start as int)).drop_last()),
{
    let b1 = back_whitespace(t, start);
    let b2 = back_whitespace(t, b1 - 1);
    proof {
        lemma_back_ws_take(t@, start as int, start as int);
        assert(t@.take(start as int).len() == start);
        assert(trim_end(t@.take(start as int)) == t@.take(start as int).take(b1 as int));
        assert(t@.take(start as int).take(b1 as int) == t@.take(b1 as int));
        assert(t@.take(b1 as int).drop_last() == t@.take(b1 - 1));
        lemma_back_ws_take(t@, b1 - 1, b1 - 1);
        assert(t@.take(b1 - 1).take(b2 as int) == t@.take(b2 as int));
    }
    let r = slice_chars(t, 0, b2);
    assert(r@ == t@.take(b2 as int));
    r
}

/// Returns `ident_end(t, i)`.
fn find_ident_end(t: &[char], i: usize) -> (r: usize)
    requires
        i <= t@.len(),
    ensures
        r as int == ident_end(t@, i as int),
        i <= r <= t@.len(),
{
    let mut k = i;
    while k < t.len() && (t[k] == '_' || t[k] == '.' || is_alphanumeric(t[k]))
        invariant
            i <= k <= t@.len(),
            ident_end(t@, k as int) == ident_end(t@, i as int),
        decreases t@.len() - k,
    {
        k = k + 1;
    }
    k
}

/// Returns `call_at(t, start, end, legacy, cont)`.
fn call_at_word(
    t: &[char],
    start: usize,
    end: usize,
    legacy: bool,
    cont: &Option<MemberContinuation>,
) -> (r: Option<ExtractedCall>)
    requires
        start < end <= t@.len(),
    ensures
        match r {
            Some(c) => call_at(t@, start as int, end as int, legacy, cont_view(*cont)) == Some(c@),
            None => call_at(t@, start as int, end as int, legacy, cont_view(*cont)) is None,
        },
        r matches Some(c) ==> start <= c@.start < c@.end == end,
{
    let look = skip_whitespace(t, end);
    if !(look < t.len() && t[look] == '(') {
        return None;
    }
    let candidate = string_of_range(t, start, end);
    if is_excluded_keyword(candidate.as_str()) {
        return None;
    }
    let final_start = match find_last_dot(t, start, end) {
        Some(d) => d + 1,
        None => start,
    };
    if final_start >= end {
        return None;
    }
    let unqualified = final_start == start;
    let inh = if unqualified {
        inherited_member(t, start, cont)
    } else {
        None
    };
    let current = if unqualified && {
        let b = back_whitespace(t, start);
        b > 0 && t[b - 1] == '.'
    } {
        let receiver = member_receiver(t, start);
        Some(classify_member_receiver(&receiver, true))
    } else {
        None
    };
    let (target, kind) = match inh {
        Some(m) => classify_extracted_call(candidate.as_str(), unqualified, legacy, Some(m)),
        None => match &current {
            Some(m) => classify_extracted_call(candidate.as_str(), unqualified, legacy, Some(m)),
            None => classify_extracted_call(candidate.as_str(), unqualified, legacy, None),
        },
    };
    Some(ExtractedCall { target, kind, start: final_start, end })
}

/// Scans one trimmed line for calls. `in_string` carries an open literal across
/// lines and `cont` the receiver of a member call split across lines.
fn extract_line_calls(t: &[char], in_string: &mut bool, cont: &mut Option<MemberContinuation>) -> (r:
    Vec<ExtractedCall>)
    ensures
        raw_views(r@) == scan_calls(t@, 0, *old(in_string), false, cont_view(*old(cont)), Seq::empty()).0,
        *final(in_string) == scan_calls(
            t@,
            0,
            *old(in_string),
            false,
            cont_view(*old(cont)),
            Seq::empty(),
        ).1,
        cont_view(*final(cont)) == apply_update(
            cont_view(*old(cont)),
            continuation_after(t@, *old(in_string)),
        ),
        r@.len() <= t@.len(),
        forall|j: int| 0 <= j < r@.len() ==> 0 <= (#[trigger] r@[j])@.start < r@[j]@.end <= t@.len(),
{
    let starts_in_string = *in_string;
    let ghost c0 = cont_view(*cont);
    let ghost target = scan_calls(t@, 0, starts_in_string, false, c0, Seq::empty());
    let mut calls: Vec<ExtractedCall> = Vec::new();
    let mut open = starts_in_string;
    let mut in_comment = false;
    let mut i: usize = 0;
    assert(raw_views(calls@) == Seq::<RawCall>::empty());
    while i < t.len()
        invariant
            i <= t@.len(),
            c0 == cont_view(*cont),
            target == scan_calls(t@, 0, starts_in_string, false, c0, Seq::empty()),
            scan_calls(t@, i as int, open, in_comment, c0, raw_views(calls@)) == target,
            calls@.len() <= i,
            forall|j: int| 0 <= j < calls@.len() ==> 0 <= (#[trigger] calls@[j])@.start < calls@[j]@.end <= t@.len(),
        decreases t@.len() - i,
    {
        let c = t[i];
        if !in_comment && c == '"' {
            if i + 1 < t.len() && t[i + 1] == '"' && open {
                i = i + 2;
                continue;
            }
            open = !open;
            i = i + 1;
            continue;
        }
        if !open && !in_comment && i + 1 < t.len() && c == '/' && t[i + 1] == '/' {
            in_comment = true;
            i = i + 2;
            continue;
        }
        if !(c == '_' || is_alphabetic(c)) {
            i = i + 1;
            continue;
        }
        let start = i;
        let end = find_ident_end(t, i + 1);
        proof {
            lemma_ident_end_bounds(t@, i + 1);
        }
        match call_at_word(t, start, end, open || in_comment, cont) {
            Some(call) => {
                let ghost before = calls@;
                calls.push(call);
                assert(raw_views(calls@) == raw_views(before).push(call@));
            },
            None => {},
        }
        i = end;
    }
    *in_string = open;
    match continuation_after_line(t, starts_in_string) {
        None => {},
        Some(None) => {
            *cont = None;
        },
        Some(Some(m)) => {
            *cont = Some(m);
        },
    }
    calls
}

// ---------------------------------------------------------------- module

/// Abstract value of a call: identifier, caller name, target, line, kind and range.
pub struct CallView {
    pub id: Seq<char>,
    pub source: Option<Seq<char>>,
    pub target: Seq<char>,
    pub line: int,
    pub kind: Option<BslCallKind>,
    pub range: Option<(int, int)>,
}

/// A call expression found in a BSL module.
#[derive(Debug, Clone, PartialEq, Eq)]
pub struct BslCall {
    id: EntityId,
    source_symbol: Option<EntityName>,
    target_symbol: EntityName,
    line: usize,
    kind: Option<BslCallKind>,
    identifier_range: Option<BslIdentifierRange>,
}

impl View for BslCall {
    type V = CallView;

    closed spec fn view(&self) -> CallView {
        CallView {
            id: self.id@,
            source: match self.source_symbol {
                Some(n) => Some(n@),
                None => None,
            },
            target: self.target_symbol@,
            line: self.line as int,
            kind: self.kind,
            range: match self.identifier_range {
                Some(r) => Some(r@),
                None => None,
            },
        }
    }
}

impl BslCall {
    /// Creates a BSL call without a kind or a range.
    pub fn new(id: EntityId, source_symbol: Option<EntityName>, target_symbol: EntityName, line: usize) -> (r:
        Self)
        ensures
            r@ == (CallView {
                id: id@,
                source: match source_symbol {
                    Some(n) => Some(n@),
                    None => None,
                },
                target: target_symbol@,
                line: line as int,
                kind: None,
                range: None,
            }),
    {
        BslCall { id, source_symbol, target_symbol, line, kind: None, identifier_range: None }
    }

    /// Creates an extracted BSL call with its kind and exact final identifier range.
    pub fn new_with_identifier_range(
        id: EntityId,
        source_symbol: Option<EntityName>,
        target_symbol: EntityName,
        line: usize,
        kind: BslCallKind,
        identifier_range: BslIdentifierRange,
    ) -> (r: Self)
        ensures
            r@ == (CallView {
                id: id@,
                source: match source_symbol {
                    Some(n) => Some(n@),
                    None => None,
                },
                target: target_symbol@,
                line: line as int,
                kind: Some(kind),
                range: Some(identifier_range@),
            }),
    {
        BslCall {
            id,
            source_symbol,
            target_symbol,
            line,
            kind: Some(kind),
            identifier_range: Some(identifier_range),
        }
    }

    /// Returns the stable call identifier.
    pub fn id(&self) -> (r: &EntityId)
        ensures
            r@ == self@.id,
    {
        &self.id
    }

    /// Returns the procedure or function containing the call.
    pub fn source_symbol(&self) -> (r: Option<&EntityName>)
        ensures
            r is Some <==> self@.source is Some,
            r matches Some(n) ==> self@.source == Some(n@),
    {
        match &self.source_symbol {
            Some(n) => Some(n),
            None => None,
        }
    }

    /// Returns the called symbol name.
    pub fn target_symbol(&self) -> (r: &EntityName)
        ensures
            r@ == self@.target,
    {
        &self.target_symbol
    }

    /// Returns the one-based source line.
    pub fn line(&self) -> (r: usize)
        ensures
            r as int == self@.line,
    {
        self.line
    }

    /// Returns the local or qualified lexical target form.
    pub fn kind(&self) -> (r: Option<BslCallKind>)
        ensures
            r == self@.kind,
    {
        self.kind
    }

    /// Returns the exact final identifier range when produced by an extractor.
    pub fn identifier_range(&self) -> (r: Option<BslIdentifierRange>)
        ensures
            r is Some <==> self@.range is Some,
            r matches Some(range) ==> self@.range == Some(range@),
    {
        self.identifier_range
    }
}

/// Abstract value of a call-extraction error.
pub enum CallErrorView {
    InvalidName(int),
    InvalidIdentifier(int),
    MalformedScope { line: int, text: Seq<char> },
    NestedScope(int),
}

/// Error produced while extracting BSL calls.
#[derive(Debug, Clone, PartialEq, Eq)]
pub enum BslCallError {
    /// A call or scope name could not be represented.
    InvalidName(usize),
    /// A call identifier could not be represented.
    InvalidIdentifier(usize),
    /// A procedure or function declaration is malformed.
    MalformedScope {
        /// One-based source line.
        line: usize,
        /// The source text of the line.
        text: String,
    },
    /// A callable declaration appeared inside another callable scope.
    NestedScope(usize),
}

impl View for BslCallError {
    type V = CallErrorView;

    open spec fn view(&self) -> CallErrorView {
        match self {
            BslCallError::InvalidName(line) => CallErrorView::InvalidName(*line as int),
            BslCallError::InvalidIdentifier(line) => CallErrorView::InvalidIdentifier(*line as int),
            BslCallError::MalformedScope { line, text } => CallErrorView::MalformedScope {
                line: *line as int,
                text: text@,
            },
            BslCallError::NestedScope(line) => CallErrorView::NestedScope(*line as int),
        }
    }
}

/// Human-readable text of a call-extraction error.
pub open spec fn call_error_message(e: CallErrorView) -> Seq<char> {
    match e {
        CallErrorView::InvalidName(line) => "invalid BSL call name at line "@ + decimal(line as nat),
        CallErrorView::InvalidIdentifier(line) => "invalid BSL call identifier at line "@ + decimal(
            line as nat,
        ),
        CallErrorView::MalformedScope { line, text } => "malformed BSL scope declaration at line "@
            + decimal(line as nat) + ": "@ + text,
        CallErrorView::NestedScope(line) => "nested BSL callable scope at line "@ + decimal(
            line as nat,
        ),
    }
}

impl BslCallError {
    /// Returns the human-readable error text.
    pub fn message(&self) -> (r: String)
        ensures
            r@ == call_error_message(self@),
    {
        let mut out = String::new();
        match self {
            BslCallError::InvalidName(line) => {
                push_str(&mut out, "invalid BSL call name at line ");
                push_decimal(&mut out, *line);
            },
            BslCallError::InvalidIdentifier(line) => {
                push_str(&mut out, "invalid BSL call identifier at line ");
                push_decimal(&mut out, *line);
            },
            BslCallError::MalformedScope { line, text } => {
                push_str(&mut out, "malformed BSL scope declaration at line ");
                push_decimal(&mut out, *line);
                push_str(&mut out, ": ");
                push_str(&mut out, text.as_str());
            },
            BslCallError::NestedScope(line) => {
                push_str(&mut out, "nested BSL callable scope at line ");
                push_decimal(&mut out, *line);
            },
        }
        out
    }
}

/// The call error that reports a declaration error found while scoping calls.
pub open spec fn scope_error(e: ParseErrorView) -> CallErrorView {
    match e {
        ParseErrorView::Nested(line) => CallErrorView::NestedScope(line),
        ParseErrorView::Malformed { line, text } => CallErrorView::MalformedScope { line, text },
        ParseErrorView::InvalidName(line) => CallErrorView::InvalidName(line),
        ParseErrorView::InvalidIdentifier(line) => CallErrorView::InvalidIdentifier(line),
        ParseErrorView::BoundExceeded { actual, .. } => CallErrorView::InvalidIdentifier(actual),
    }
}

/// Maps a declaration error of unbounded scoping to a call error.
fn scope_parse_error(error: BslParseError) -> (r: BslCallError)
    requires
        !(error@ is BoundExceeded),
    ensures
        r@ == scope_error(error@),
{
    match error {
        BslParseError::NestedDeclaration(line) => BslCallError::NestedScope(line),
        BslParseError::MalformedDeclaration { line, text } => BslCallError::MalformedScope { line, text },
        BslParseError::InvalidName(line) => BslCallError::InvalidName(line),
        BslParseError::InvalidIdentifier(line) => BslCallError::InvalidIdentifier(line),
        BslParseError::BoundExceeded { actual, .. } => BslCallError::InvalidIdentifier(actual),
    }
}

/// Index of the first scope that contains line `line`, searching from `j`, or `-1`.
pub open spec fn first_containing(scopes: Seq<ScopeView>, line: int, j: int) -> int
    decreases scopes.len() - j,
{
    if j < 0 || j >= scopes.len() {
        -1
    } else if scopes[j].symbol.line <= line <= scopes[j].end_line {
        j
    } else {
        first_containing(scopes, line, j + 1)
    }
}

/// Index of the first `.` of `t` at or after `i`, or `-1`.
pub open spec fn first_dot(t: Seq<char>, i: int) -> int
    decreases t.len() - i,
{
    if i < 0 || i >= t.len() {
        -1
    } else if t[i] == '.' {
        i
    } else {
        first_dot(t, i + 1)
    }
}

/// A qualified target whose qualifier is shadowed by a local value.
pub open spec fn qualifier_shadowed(m: ModuleView, sc: int, target: Seq<char>) -> bool {
    let d = first_dot(target, 0);
    d >= 0 && if sc >= 0 {
        scope_shadows(m, sc, target.take(d))
    } else {
        module_shadows(m, target.take(d))
    }
}

/// Kind of an extracted call once shadowed qualifiers are taken into account.
pub open spec fn adjusted_kind(m: ModuleView, sc: int, c: RawCall) -> BslCallKind {
    if c.kind == BslCallKind::Qualified && qualifier_shadowed(m, sc, c.target) {
        BslCallKind::Unsupported
    } else {
        c.kind
    }
}

/// Text of the identifier `{module}:call:{line}:{ordinal}`.
pub open spec fn call_id_text(module: Seq<char>, line: int, ordinal: int) -> Seq<char> {
    module + ":call:"@ + decimal(line as nat) + ":"@ + decimal(ordinal as nat)
}

/// Converts the calls `raws[j..]` of line `number` (whose trimmed text starts at
/// scalar `base`) into call values, numbering them after `ordinal`.
pub open spec fn line_call_views(
    s: Seq<char>,
    module: Seq<char>,
    m: ModuleView,
    number: int,
    sc: int,
    base: int,
    raws: Seq<RawCall>,
    j: int,
    ordinal: int,
    acc: Seq<CallView>,
) -> Result<(int, Seq<CallView>), CallErrorView>
    decreases raws.len() - j,
{
    if j < 0 || j >= raws.len() {
        Ok((ordinal, acc))
    } else {
        let c = raws[j];
        let id = call_id_text(module, number, ordinal + 1);
        if all_ws(id) {
            Err(CallErrorView::InvalidIdentifier(number))
        } else if all_ws(c.target) {
            Err(CallErrorView::InvalidName(number))
        } else {
            let v = CallView {
                id,
                source: if sc >= 0 { Some(m.scopes[sc].symbol.name) } else { None },
                target: c.target,
                line: number,
                kind: Some(adjusted_kind(m, sc, c)),
                range: Some((byte_at(s, base + c.start), byte_at(s, base + c.end))),
            };
            line_call_views(s, module, m, number, sc, base, raws, j + 1, ordinal + 1, acc.push(v))
        }
    }
}

/// Calls of the module lines from `k` on. Blank, comment and preprocessor
/// lines outside literals and the header and end lines of scopes are skipped.
pub open spec fn calls_scan(
    s: Seq<char>,
    lines: Seq<(int, int)>,
    module: Seq<char>,
    m: ModuleView,
    k: int,
    in_string: bool,
    cont: Option<ContView>,
    ordinal: int,
    acc: Seq<CallView>,
) -> Result<Seq<CallView>, CallErrorView>
    decreases lines.len() - k,
{
    if k < 0 || k >= lines.len() {
        Ok(acc)
    } else {
        let x = line_text(s, lines, k);
        let p = skip_ws(x, 0);
        let number = k + 1;
        let sc = first_containing(m.scopes, number, 0);
        if !in_string && (p >= x.len() || directive_at(x, p)) {
            calls_scan(s, lines, module, m, k + 1, in_string, cont, ordinal, acc)
        } else if sc >= 0 && (number <= m.scopes[sc].header_end_line || number == m.scopes[sc].end_line) {
            calls_scan(s, lines, module, m, k + 1, in_string, None, ordinal, acc)
        } else {
            let t = x.skip(p);
            let r = scan_calls(t, 0, in_string, false, cont, Seq::empty());
            let next = apply_update(cont, continuation_after(t, in_string));
            match line_call_views(
                s,
                module,
                m,
                number,
                sc,
                text_start(s, lines, k) + p,
                r.0,
                0,
                ordinal,
                acc,
            ) {
                Err(e) => Err(e),
                Ok(done) => calls_scan(s, lines, module, m, k + 1, r.1, next, done.0, done.1),
            }
        }
    }
}

/// The calls of a module in source order, or the first error.
pub open spec fn extracted_calls(s: Seq<char>, module: Seq<char>) -> Result<Seq<CallView>, CallErrorView> {
    match parse_module(s, module, None) {
        Err(e) => Err(scope_error(e)),
        Ok(m) => calls_scan(s, source_lines(s), module, m, 0, false, None, 0, Seq::empty()),
    }
}

/// The statement and declaration keywords of BSL, in lowercase, in both
/// languages, listed one by one.
pub open spec fn statement_keyword(l: Seq<char>) -> bool {
    ||| l == "if"@ || l == "если"@ || l == "elsif"@ || l == "иначеесли"@
    ||| l == "while"@ || l == "пока"@ || l == "for"@ || l == "для"@
    ||| l == "foreach"@ || l == "длякаждого"@ || l == "return"@ || l == "возврат"@
    ||| l == "procedure"@ || l == "процедура"@ || l == "function"@ || l == "функция"@
}

/// No local raw call targets a keyword.
pub open spec fn raws_skip_keywords(raws: Seq<RawCall>) -> bool {
    forall|i: int|
        0 <= i < raws.len() && (#[trigger] raws[i]).kind == BslCallKind::Local ==> !statement_keyword(
            lowercase(raws[i].target),
        )
}

/// No local call targets a keyword.
pub open spec fn calls_skip_keywords(v: Seq<CallView>) -> bool {
    forall|i: int|
        0 <= i < v.len() && (#[trigger] v[i]).kind == Some(BslCallKind::Local) ==> !statement_keyword(
            lowercase(v[i].target),
        )
}

proof fn lemma_call_at_skips_keywords(t: Seq<char>, start: int, end: int, legacy: bool, cont: Option<ContView>)
    ensures
        call_at(t, start, end, legacy, cont) matches Some(c) ==> (c.kind == BslCallKind::Local ==> !statement_keyword(
            lowercase(c.target),
        )),
{
}

proof fn lemma_scan_calls_skip_keywords(
    t: Seq<char>,
    i: int,
    in_string: bool,
    in_comment: bool,
    cont: Option<ContView>,
    acc: Seq<RawCall>,
)
    requires
        raws_skip_keywords(acc),
    ensures
        raws_skip_keywords(scan_calls(t, i, in_string, in_comment, cont, acc).0),
    decreases t.len() - i,
{
    if i < 0 || i >= t.len() {
    } else if !in_comment && t[i] == '"' {
        if i + 1 < t.len() && t[i + 1] == '"' && in_string {
            lemma_scan_calls_skip_keywords(t, i + 2, in_string, in_comment, cont, acc);
        } else {
            lemma_scan_calls_skip_keywords(t, i + 1, !in_string, in_comment, cont, acc);
        }
    } else if !in_string && !in_comment && comment_at(t, i) {
        lemma_scan_calls_skip_keywords(t, i + 2, in_string, true, cont, acc);
    } else if !ident_start(t[i]) {
        lemma_scan_calls_skip_keywords(t, i + 1, in_string, in_comment, cont, acc);
    } else {
        let end = ident_end(t, i + 1);
        lemma_ident_end_bounds(t, i + 1);
        lemma_call_at_skips_keywords(t, i, end, in_string || in_comment, cont);
        let next = match call_at(t, i, end, in_string || in_comment, cont) {
            Some(c) => acc.push(c),
            None => acc,
        };
        assert(raws_skip_keywords(next)) by {
            assert forall|k: int|
                0 <= k < next.len() && (#[trigger] next[k]).kind == BslCallKind::Local implies !statement_keyword(
                lowercase(next[k].target),
            ) by {
                if k < acc.len() {
                    assert(next[k] == acc[k]);
                }
            }
        }
        lemma_scan_calls_skip_keywords(t, end, in_string, in_comment, cont, next);
    }
}

proof fn lemma_line_call_views_skip_keywords(
    s: Seq<char>,
    module: Seq<char>,
    m: ModuleView,
    number: int,
    sc: int,
    base: int,
    raws: Seq<RawCall>,
    j: int,
    ordinal: int,
    acc: Seq<CallView>,
)
    requires
        raws_skip_keywords(raws),
        calls_skip_keywords(acc),
    ensures
        line_call_views(s, module, m, number, sc, base, raws, j, ordinal, acc) matches Ok(done)
            ==> calls_skip_keywords(done.1),
    decreases raws.len() - j,
{
    if 0 <= j < raws.len() {
        let c = raws[j];
        let id = call_id_text(module, number, ordinal + 1);
        if !all_ws(id) && !all_ws(c.target) {
            let v = CallView {
                id,
                source: if sc >= 0 { Some(m.scopes[sc].symbol.name) } else { None },
                target: c.target,
                line: number,
                kind: Some(adjusted_kind(m, sc, c)),
                range: Some((byte_at(s, base + c.start), byte_at(s, base + c.end))),
            };
            let next = acc.push(v);
            assert(calls_skip_keywords(next)) by {
                assert forall|k: int|
                    0 <= k < next.len() && (#[trigger] next[k]).kind == Some(BslCallKind::Local) implies !statement_keyword(
                    lowercase(next[k].target),
                ) by {
                    if k < acc.len() {
                        assert(next[k] == acc[k]);
                    } else {
                        assert(next[k] == v);
                        assert(c.kind == BslCallKind::Local);
                    }
                }
            }
            lemma_line_call_views_skip_keywords(s, module, m, number, sc, base, raws, j + 1, ordinal + 1, next);
        }
    }
}

proof fn lemma_calls_scan_skip_keywords(
    s: Seq<char>,
    lines: Seq<(int, int)>,
    module: Seq<char>,
    m: ModuleView,
    k: int,
    in_string: bool,
    cont: Option<ContView>,
    ordinal: int,
    acc: Seq<CallView>,
)
    requires
        calls_skip_keywords(acc),
    ensures
        calls_scan(s, lines, module, m, k, in_string, cont, ordinal, acc) matches Ok(v) ==> calls_skip_keywords(v),
    decreases lines.len() - k,
{
    if 0 <= k < lines.len() {
        let x = line_text(s, lines, k);
        let p = skip_ws(x, 0);
        let number = k + 1;
        let sc = first_containing(m.scopes, number, 0);
        if !in_string && (p >= x.len() || directive_at(x, p)) {
            lemma_calls_scan_skip_keywords(s, lines, module, m, k + 1, in_string, cont, ordinal, acc);
        } else if sc >= 0 && (number <= m.scopes[sc].header_end_line || number == m.scopes[sc].end_line) {
            lemma_calls_scan_skip_keywords(s, lines, module, m, k + 1, in_string, None, ordinal, acc);
        } else {
            let t = x.skip(p);
            let r = scan_calls(t, 0, in_string, false, cont, Seq::empty());
            let next = apply_update(cont, continuation_after(t, in_string));
            lemma_scan_calls_skip_keywords(t, 0, in_string, false, cont, Seq::empty());
            let base = text_start(s, lines, k) + p;
            lemma_line_call_views_skip_keywords(s, module, m, number, sc, base, r.0, 0, ordinal, acc);
            match line_call_views(s, module, m, number, sc, base, r.0, 0, ordinal, acc) {
                Err(e) => {},
                Ok(done) => {
                    lemma_calls_scan_skip_keywords(s, lines, module, m, k + 1, r.1, next, done.0, done.1);
                },
            }
        }
    }
}

/// Statement and declaration keywords are never calls: no local call that
/// the extraction yields has a target whose lowercase form is `if`/`если`,
/// `elsif`/`иначеесли`, `while`/`пока`, `for`/`для`,
/// `foreach`/`длякаждого`, `return`/`возврат`, `procedure`/`процедура` or
/// `function`/`функция`.
pub proof fn law_keywords_are_never_local_calls(s: Seq<char>, module: Seq<char>)
    ensures
        extracted_calls(s, module) matches Ok(v) ==> forall|i: int|
            0 <= i < v.len() && (#[trigger] v[i]).kind == Some(BslCallKind::Local) ==> !statement_keyword(
                lowercase(v[i].target),
            ),
{
    match parse_module(s, module, None) {
        Err(e) => {},
        Ok(m) => {
            lemma_calls_scan_skip_keywords(s, source_lines(s), module, m, 0, false, None, 0, Seq::empty());
        },
    }
}

/// The views of calls.
pub open spec fn call_views(v: Seq<BslCall>) -> Seq<CallView> {
    v.map_values(|c: BslCall| c@)
}

/// Returns `first_containing(scope_views(scopes), line, 0)` as an optional index.
fn containing_scope(scopes: &Vec<ParsedCallableScope>, line: usize) -> (r: Option<usize>)
    ensures
        match r {
            Some(j) => first_containing(scope_views(scopes@), line as int, 0) == j as int && j
                < scopes@.len(),
            None => first_containing(scope_views(scopes@), line as int, 0) == -1,
        },
{
    let mut j: usize = 0;
    while j < scopes.len()
        invariant
            j <= scopes@.len(),
            first_containing(scope_views(scopes@), line as int, j as int) == first_containing(
                scope_views(scopes@),
                line as int,
                0,
            ),
        decreases scopes@.len() - j,
    {
        let sc = &scopes[j];
        assert(scope_views(scopes@)[j as int] == sc@);
        if sc.symbol().line() <= line && line <= sc.end_line() {
            return Some(j);
        }
        j = j + 1;
    }
    None
}

/// Returns `first_dot(t, 0)` as an optional index.
pub(crate) fn find_first_dot(t: &[char]) -> (r: Option<usize>)
    ensures
        match r {
            Some(d) => first_dot(t@, 0) == d as int && d < t@.len(),
            None => first_dot(t@, 0) == -1,
        },
{
    let mut i: usize = 0;
    while i < t.len()
        invariant
            i <= t@.len(),
            first_dot(t@, i as int) == first_dot(t@, 0),
        decreases t@.len() - i,
    {
        if t[i] == '.' {
            return Some(i);
        }
        i = i + 1;
    }
    None
}

/// Returns `adjusted_kind(m, sc, c)`.
fn adjust_kind(m: &ParsedCallableModule, sc: Option<usize>, c: &ExtractedCall) -> (r: BslCallKind)
    requires
        sc matches Some(j) ==> j < m@.scopes.len(),
    ensures
        r == adjusted_kind(
            m@,
            match sc {
                Some(j) => j as int,
                None => -1,
            },
            c@,
        ),
{
    if c.kind != BslCallKind::Qualified {
        return c.kind;
    }
    let target = chars_of(c.target.as_str());
    match find_first_dot(&target) {
        None => c.kind,
        Some(d) => {
            let qualifier = string_of_range(&target, 0, d);
            assert(qualifier@ == c@.target.take(d as int));
            let shadowed = match sc {
                Some(j) => m.scope_shadows(j, qualifier.as_str()),
                None => m.module_shadows(qualifier.as_str()),
            };
            if shadowed {
                BslCallKind::Unsupported
            } else {
                c.kind
            }
        },
    }
}

/// Builds the identifier text `{module}:call:{line}:{ordinal}`.
fn call_id(module_id: &EntityId, line: usize, ordinal: usize) -> (r: String)
    ensures
        r@ == call_id_text(module_id@, line as int, ordinal as int),
{
    let mut text = String::new();
    push_str(&mut text, module_id.as_str());
    push_str(&mut text, ":call:");
    push_decimal(&mut text, line);
    push_str(&mut text, ":");
    push_decimal(&mut text, ordinal);
    proof {
        reveal_strlit(":call:");
        reveal_strlit(":");
    }
    text
}

/// Extracts the calls of a module.
fn extract_module_calls(module_id: &EntityId, source: &str) -> (r: Result<Vec<BslCall>, BslCallError>)
    ensures
        match r {
            Ok(v) => extracted_calls(source@, module_id@) == Ok::<Seq<CallView>, CallErrorView>(
                call_views(v@),
            ),
            Err(e) => extracted_calls(source@, module_id@) == Err::<Seq<CallView>, CallErrorView>(
                e@,
            ),
        },
{
    let s = chars_of(source);
    let parsed = match parse_callable_scopes_bounded(module_id, s.as_slice(), None) {
        Err(e) => {
            proof {
                lemma_unbounded_parse_errors(s@, module_id@);
            }
            return Err(scope_parse_error(e));
        },
        Ok(m) => m,
    };
    let offs = byte_offsets(s.as_slice());
    let lines = line_spans(s.as_slice());
    let ghost l = spans(lines@);
    let ghost mv = parsed@;
    let ghost target = calls_scan(s@, l, module_id@, mv, 0, false, None, 0, Seq::empty());
    proof {
        lemma_lines_from_ordered(s@, 0);
    }
    let source_len = s.len();
    let mut calls: Vec<BslCall> = Vec::new();
    let mut ordinal: usize = 0;
    let mut in_string = false;
    let mut cont: Option<MemberContinuation> = None;
    let mut k: usize = 0;
    assert(call_views(calls@) == Seq::<CallView>::empty());
    while k < lines.len()
        invariant
            lines_wf(s@, lines@),
            offsets_wf(s@, offs@),
            l == spans(lines@),
            l == source_lines(s@),
            mv == parsed@,
            s@ == source@,
            s@.len() == source_len,
            parse_module(s@, module_id@, None) == Ok::<ModuleView, ParseErrorView>(mv),
            forall|i: int|
                0 <= i < l.len() ==> {
                    &&& 0 <= (#[trigger] l[i]).0 <= l[i].1 <= s@.len()
                    &&& i + 1 < l.len() ==> l[i].1 < l[i + 1].0
                },
            k <= lines@.len(),
            k < lines@.len() ==> ordinal <= l[k as int].0,
            target == calls_scan(s@, l, module_id@, mv, 0, false, None, 0, Seq::empty()),
            calls_scan(s@, l, module_id@, mv, k as int, in_string, cont_view(cont), ordinal as int, call_views(calls@))
                == target,
        decreases lines@.len() - k,
    {
        let x = line_text_of(s.as_slice(), &lines, k);
        let p = skip_whitespace(&x, 0);
        let count = lines.len();
        assert(k < count);
        let number = k + 1;
        if !in_string && (p >= x.len() || directive_starts(&x, p)) {
            proof {
                if k + 1 < l.len() {
                    assert(l[k as int].1 < l[k + 1].0);
                }
            }
            k = k + 1;
            continue;
        }
        let sc = containing_scope(parsed.scopes(), number);
        let ghost sci: int = match sc {
            Some(j) => j as int,
            None => -1,
        };
        match sc {
            Some(j) => {
                let scope = &parsed.scopes()[j];
                assert(mv.scopes[j as int] == scope@);
                if number <= scope.header_end_line() || number == scope.end_line() {
                    cont = None;
                    proof {
                        if k + 1 < l.len() {
                            assert(l[k as int].1 < l[k + 1].0);
                        }
                    }
                    k = k + 1;
                    continue;
                }
            },
            None => {},
        }
        let t = slice_chars(&x, p, x.len());
        assert(t@ == x@.skip(p as int));
        let ghost in_string0 = in_string;
        let ghost cont0 = cont_view(cont);
        let raws = extract_line_calls(&t, &mut in_string, &mut cont);
        let ts = text_start_of(s.as_slice(), &lines, k);
        proof {
            lemma_text_start_bounds(s@, lines@, k as int);
            assert(l[k as int] == (lines@[k as int].0 as int, lines@[k as int].1 as int));
        }
        let base = ts + p;
        let ghost ordinal0 = ordinal as int;
        let ghost acc0 = call_views(calls@);
        let ghost line_target = line_call_views(
            s@,
            module_id@,
            mv,
            number as int,
            sci,
            base as int,
            raw_views(raws@),
            0,
            ordinal0,
            acc0,
        );
        assert(target == match line_target {
            Err(e) => Err(e),
            Ok(done) => calls_scan(s@, l, module_id@, mv, k + 1, in_string, cont_view(cont), done.0, done.1),
        });
        let mut j: usize = 0;
        while j < raws.len()
            invariant
                offsets_wf(s@, offs@),
                mv == parsed@,
                s@ == source@,
                s@.len() == source_len,
                parse_module(s@, module_id@, None) == Ok::<ModuleView, ParseErrorView>(mv),
                l == source_lines(s@),
                target == calls_scan(s@, l, module_id@, mv, 0, false, None, 0, Seq::empty()),
                target == match line_target {
                    Err(e) => Err(e),
                    Ok(done) => calls_scan(s@, l, module_id@, mv, k + 1, in_string, cont_view(cont), done.0, done.1),
                },
                j <= raws@.len(),
                ordinal as int == ordinal0 + j,
                ordinal0 + raws@.len() <= s@.len(),
                base as int + t@.len() <= s@.len(),
                forall|i: int| 0 <= i < raws@.len() ==> 0 <= (#[trigger] raws@[i])@.start < raws@[i]@.end <= t@.len(),
                sc matches Some(jj) ==> jj < mv.scopes.len(),
                sci == match sc {
                    Some(jj) => jj as int,
                    None => -1,
                },
                line_call_views(
                    s@,
                    module_id@,
                    mv,
                    number as int,
                    sci,
                    base as int,
                    raw_views(raws@),
                    j as int,
                    ordinal as int,
                    call_views(calls@),
                ) == line_target,
            decreases raws@.len() - j,
        {
            let rc = &raws[j];
            assert(raw_views(raws@)[j as int] == rc@);
            let kind = adjust_kind(&parsed, sc, rc);
            ordinal = ordinal + 1;
            let id_text = call_id(module_id, number, ordinal);
            let id = match EntityId::from_string(id_text) {
                Err(_) => {
                    return Err(BslCallError::InvalidIdentifier(number));
                },
                Ok(i) => i,
            };
            let target_name = match EntityName::new(rc.target.as_str()) {
                Err(_) => {
                    return Err(BslCallError::InvalidName(number));
                },
                Ok(n) => n,
            };
            let source_symbol = match sc {
                Some(jj) => {
                    let scope = &parsed.scopes()[jj];
                    assert(mv.scopes[jj as int] == scope@);
                    Some(scope.symbol().name().duplicate())
                },
                None => None,
            };
            proof {
                lemma_byte_at_strict(s@, base + rc@.start, base + rc@.end);
            }
            let range = match BslIdentifierRange::new(offs[base + rc.start], offs[base + rc.end]) {
                Some(r) => r,
                None => {
                    return Err(BslCallError::InvalidIdentifier(number));
                },
            };
            let call = BslCall::new_with_identifier_range(id, source_symbol, target_name, number, kind, range);
            let ghost before = calls@;
            calls.push(call);
            assert(call_views(calls@) == call_views(before).push(call@));
            j = j + 1;
        }
        proof {
            if k + 1 < l.len() {
                assert(l[k as int].1 < l[k + 1].0);
            }
        }
        k = k + 1;
    }
    Ok(calls)
}

/// Extracts simple calls from BSL source.
pub trait BslCallExtractor {
    /// Extracts calls using `module_id` as a stable parent identifier.
    fn extract_calls(&self, module_id: &EntityId, source: &str) -> (r: Result<Vec<BslCall>, BslCallError>)
    ;
}

/// Conservative line-oriented extractor for direct BSL calls that also tracks
/// the enclosing top-level procedure or function.
#[derive(Debug, Clone, Copy)]
pub struct LineBslCallExtractor;

impl BslCallExtractor for LineBslCallExtractor {
    fn extract_calls(&self, module_id: &EntityId, source: &str) -> (r: Result<Vec<BslCall>, BslCallError>)
        ensures
            match r {
                Ok(v) => extracted_calls(source@, module_id@) == Ok::<Seq<CallView>, CallErrorView>(
                    call_views(v@),
                ),
                Err(e) => extracted_calls(source@, module_id@) == Err::<Seq<CallView>, CallErrorView>(
                    e@,
                ),
            },
    {
        extract_module_calls(module_id, source)
    }
}

} // verus!
