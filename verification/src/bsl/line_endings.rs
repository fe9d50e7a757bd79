//! Query extraction sees only the contents of physical lines and whether
//! each line has a line ending: sources that agree on those, such as a
//! source with LF line endings and the same source with CRLF ones, give the
//! same queries, up to the offsets their source maps record.

use vstd::prelude::*;

use crate::bsl::queries::{
    add_constructor, apply_assignment, collected_queries, constructor, decode_literal, decode_scan, find_key,
    flushed, indent_end, insert_pos, insert_unique, lemma_assignment_last, lemma_constructor_last,
    physical_lines, physical_from, newline_from, lemma_newline_from_bounds, query_scan, sorted_unique, text_assignment, CandView, QueryErrorView, QueryScopeView,
    QueryView, assignment_split, scope_start, scope_end, find_sub, lower_starts_with, skip_bytes, strip_statement_end, find_char,
};
use crate::bsl::lowercase;
use crate::text::{all_ws, lemma_skip_ws_bounds, skip_ws, trim, trim_start, utf8_len};

verus! {

/// A query without its source map.
pub open spec fn erase(q: QueryView) -> QueryView {
    QueryView { map: None, ..q }
}

/// Queries without their source maps.
pub open spec fn erase_all(s: Seq<QueryView>) -> Seq<QueryView> {
    s.map_values(|q: QueryView| erase(q))
}

/// A candidate whose query, if any, has no source map.
pub open spec fn erase_cand(c: CandView) -> CandView {
    CandView {
        key: c.key,
        state: match c.state {
            Some((q, h)) => Some((erase(q), h)),
            None => None,
        },
    }
}

/// Candidates without source maps.
pub open spec fn erase_cands(s: Seq<CandView>) -> Seq<CandView> {
    s.map_values(|c: CandView| erase_cand(c))
}

proof fn lemma_find_key_erased(a: Seq<CandView>, b: Seq<CandView>, key: Seq<char>, j: int)
    requires
        erase_cands(a) == erase_cands(b),
    ensures
        find_key(a, key, j) == find_key(b, key, j),
    decreases a.len() - j,
{
    assert(a.len() == erase_cands(a).len());
    assert(b.len() == erase_cands(b).len());
    if 0 <= j < a.len() {
        assert(erase_cands(a)[j] == erase_cand(a[j]));
        assert(erase_cands(b)[j] == erase_cand(b[j]));
        lemma_find_key_erased(a, b, key, j + 1);
    }
}

proof fn lemma_flushed_erased(a: Seq<CandView>, b: Seq<CandView>)
    requires
        erase_cands(a) == erase_cands(b),
    ensures
        erase_all(flushed(a)) == erase_all(flushed(b)),
    decreases a.len(),
{
    assert(a.len() == erase_cands(a).len());
    assert(b.len() == erase_cands(b).len());
    if a.len() > 0 {
        assert(erase_cands(a.drop_last()) =~= erase_cands(a).drop_last());
        assert(erase_cands(b.drop_last()) =~= erase_cands(b).drop_last());
        lemma_flushed_erased(a.drop_last(), b.drop_last());
        assert(erase_cands(a)[a.len() - 1] == erase_cand(a.last()));
        assert(erase_cands(b)[b.len() - 1] == erase_cand(b.last()));
        let ra = flushed(a.drop_last());
        let rb = flushed(b.drop_last());
        match a.last().state {
            Some((q, true)) => {
                if q.text.len() > 0 {
                    assert(erase_all(ra.push(q)) =~= erase_all(ra).push(erase(q)));
                    let q2 = (b.last().state->0).0;
                    assert(erase_all(rb.push(q2)) =~= erase_all(rb).push(erase(q2)));
                }
            },
            _ => {},
        }
    }
}

proof fn lemma_add_constructor_erased(
    a: Seq<CandView>,
    b: Seq<CandView>,
    key: Seq<char>,
    qa: QueryView,
    qb: QueryView,
    h: bool,
)
    requires
        erase_cands(a) == erase_cands(b),
        erase(qa) == erase(qb),
    ensures
        erase_cands(add_constructor(a, key, qa, h)) == erase_cands(add_constructor(b, key, qb, h)),
{
    lemma_find_key_erased(a, b, key, 0);
    lemma_find_key_bound(a, key, 0);
    lemma_find_key_bound(b, key, 0);
    let j = find_key(a, key, 0);
    assert(a.len() == erase_cands(a).len());
    assert(b.len() == erase_cands(b).len());
    if j >= 0 {
        assert(erase_cands(a.update(j, CandView { key, state: None })) =~= erase_cands(a).update(
            j,
            erase_cand(CandView { key, state: None }),
        ));
        assert(erase_cands(b.update(j, CandView { key, state: None })) =~= erase_cands(b).update(
            j,
            erase_cand(CandView { key, state: None }),
        ));
    } else {
        let ca = CandView { key, state: Some((qa, h)) };
        let cb = CandView { key, state: Some((qb, h)) };
        assert(erase_cands(a.push(ca)) =~= erase_cands(a).push(erase_cand(ca)));
        assert(erase_cands(b.push(cb)) =~= erase_cands(b).push(erase_cand(cb)));
    }
}

proof fn lemma_apply_assignment_erased(
    a: Seq<CandView>,
    b: Seq<CandView>,
    key: Seq<char>,
    text: Option<Seq<char>>,
    ma: Option<crate::bsl::queries::MapView>,
    mb: Option<crate::bsl::queries::MapView>,
)
    requires
        erase_cands(a) == erase_cands(b),
    ensures
        erase_cands(apply_assignment(a, key, text, ma)) == erase_cands(apply_assignment(b, key, text, mb)),
{
    lemma_find_key_erased(a, b, key, 0);
    let j = find_key(a, key, 0);
    assert(a.len() == erase_cands(a).len());
    assert(b.len() == erase_cands(b).len());
    if j >= 0 {
        lemma_find_key_bound(a, key, 0);
        assert(erase_cands(a)[j] == erase_cand(a[j]));
        assert(erase_cands(b)[j] == erase_cand(b[j]));
        let na = match (a[j].state, text) {
            (Some((q, false)), Some(t)) => CandView { key, state: Some((QueryView { text: t, map: ma, ..q }, true)) },
            _ => CandView { key, state: None },
        };
        let nb = match (b[j].state, text) {
            (Some((q, false)), Some(t)) => CandView { key, state: Some((QueryView { text: t, map: mb, ..q }, true)) },
            _ => CandView { key, state: None },
        };
        assert(apply_assignment(a, key, text, ma) == a.update(j, na));
        assert(apply_assignment(b, key, text, mb) == b.update(j, nb));
        assert(erase_cand(na) == erase_cand(nb));
        assert(erase_cands(a.update(j, na)) =~= erase_cands(a).update(j, erase_cand(na)));
        assert(erase_cands(b.update(j, nb)) =~= erase_cands(b).update(j, erase_cand(nb)));
    }
}

proof fn lemma_find_key_bound(a: Seq<CandView>, key: Seq<char>, j: int)
    requires
        0 <= j,
    ensures
        find_key(a, key, j) < a.len(),
        find_key(a, key, j) >= 0 ==> j <= find_key(a, key, j),
    decreases a.len() - j,
{
    if 0 <= j < a.len() && a[j].key != key {
        lemma_find_key_bound(a, key, j + 1);
    }
}

proof fn lemma_insert_pos_erased(r: Seq<QueryView>, s: Seq<QueryView>, id: Seq<char>, i: int)
    requires
        erase_all(r) == erase_all(s),
    ensures
        insert_pos(r, id, i) == insert_pos(s, id, i),
    decreases r.len() - i,
{
    assert(r.len() == erase_all(r).len());
    assert(s.len() == erase_all(s).len());
    if 0 <= i < r.len() {
        assert(erase_all(r)[i] == erase(r[i]));
        assert(erase_all(s)[i] == erase(s[i]));
        lemma_insert_pos_erased(r, s, id, i + 1);
    }
}

proof fn lemma_insert_pos_bound(r: Seq<QueryView>, id: Seq<char>, i: int)
    requires
        0 <= i <= r.len(),
    ensures
        i <= insert_pos(r, id, i) <= r.len(),
    decreases r.len() - i,
{
    if i < r.len() && crate::text::lex_lt(r[i].id, id) {
        lemma_insert_pos_bound(r, id, i + 1);
    }
}

/// Ordering queries by identifier does not look at their source maps.
pub proof fn lemma_sorted_unique_erased(a: Seq<QueryView>, b: Seq<QueryView>)
    requires
        erase_all(a) == erase_all(b),
    ensures
        erase_all(sorted_unique(a)) == erase_all(sorted_unique(b)),
    decreases a.len(),
{
    assert(a.len() == erase_all(a).len());
    assert(b.len() == erase_all(b).len());
    if a.len() > 0 {
        assert(erase_all(a.drop_last()) =~= erase_all(a).drop_last());
        assert(erase_all(b.drop_last()) =~= erase_all(b).drop_last());
        lemma_sorted_unique_erased(a.drop_last(), b.drop_last());
        let ra = sorted_unique(a.drop_last());
        let rb = sorted_unique(b.drop_last());
        let x = a.last();
        let y = b.last();
        assert(erase_all(a)[a.len() - 1] == erase(x));
        assert(erase_all(b)[b.len() - 1] == erase(y));
        assert(x.id == y.id);
        lemma_insert_pos_erased(ra, rb, x.id, 0);
        lemma_insert_pos_bound(ra, x.id, 0);
        let p = insert_pos(ra, x.id, 0);
        assert(ra.len() == erase_all(ra).len());
        assert(rb.len() == erase_all(rb).len());
        if 0 <= p < ra.len() {
            assert(erase_all(ra)[p] == erase(ra[p]));
            assert(erase_all(rb)[p] == erase(rb[p]));
        }
        if !(0 <= p < ra.len() && ra[p].id == x.id) {
            assert(erase_all(ra.insert(p, x)) =~= erase_all(ra).insert(p, erase(x)));
            assert(erase_all(rb.insert(p, y)) =~= erase_all(rb).insert(p, erase(y)));
        }
    }
}

/// Two sources agree line by line: as many physical lines, each with the
/// same content, and a line ending on one exactly where the other has one.
pub open spec fn lines_agree(s: Seq<char>, p: Seq<(int, int, int)>, s2: Seq<char>, p2: Seq<(int, int, int)>) -> bool {
    &&& p.len() == p2.len()
    &&& forall|k: int|
        0 <= k < p.len() ==> {
            &&& 0 <= (#[trigger] p[k]).0 <= p[k].1 <= p[k].2 <= s.len()
            &&& 0 <= p2[k].0 <= p2[k].1 <= p2[k].2 <= s2.len()
            &&& s.subrange(p[k].0, p[k].1) == s2.subrange(p2[k].0, p2[k].1)
            &&& (p[k].2 == p[k].1) == (p2[k].2 == p2[k].1)
        }
}

/// How far line `k` of the second source lies from line `k` of the first.
pub open spec fn shift(p: Seq<(int, int, int)>, p2: Seq<(int, int, int)>, k: int) -> int {
    p2[k].0 - p[k].0
}

proof fn lemma_piece_agree(
    s: Seq<char>,
    p: Seq<(int, int, int)>,
    s2: Seq<char>,
    p2: Seq<(int, int, int)>,
    k: int,
    a: int,
    b: int,
)
    requires
        lines_agree(s, p, s2, p2),
        0 <= k < p.len(),
        p[k].0 <= a <= b <= p[k].1,
    ensures
        p2[k].1 == p[k].1 + shift(p, p2, k),
        s.subrange(a, b) == s2.subrange(a + shift(p, p2, k), b + shift(p, p2, k)),
        forall|i: int| a <= i < b ==> s[i] == s2[i + shift(p, p2, k)],
{
    let d = shift(p, p2, k);
    let x = s.subrange(p[k].0, p[k].1);
    let y = s2.subrange(p2[k].0, p2[k].1);
    assert(x.len() == y.len());
    assert forall|i: int| a <= i < b implies s[i] == s2[i + d] by {
        assert(x[i - p[k].0] == s[i]);
        assert(y[i - p[k].0] == s2[i + d]);
    }
    assert(s.subrange(a, b) =~= s2.subrange(a + d, b + d));
}

proof fn lemma_indent_agree(
    s: Seq<char>,
    p: Seq<(int, int, int)>,
    s2: Seq<char>,
    p2: Seq<(int, int, int)>,
    k: int,
    i: int,
)
    requires
        lines_agree(s, p, s2, p2),
        0 <= k < p.len(),
        p[k].0 <= i <= p[k].1,
    ensures
        i <= indent_end(s, i, p[k].1) <= p[k].1,
        indent_end(s2, i + shift(p, p2, k), p2[k].1) == indent_end(s, i, p[k].1) + shift(p, p2, k),
    decreases p[k].1 - i,
{
    lemma_piece_agree(s, p, s2, p2, k, i, p[k].1);
    if i < p[k].1 {
        lemma_indent_agree(s, p, s2, p2, k, i + 1);
    }
}

/// Decoding a literal on sources that agree line by line gives the same
/// text, ends on the same line, and closes at the same place of that line.
proof fn lemma_decode_scan_agree(
    s: Seq<char>,
    p: Seq<(int, int, int)>,
    s2: Seq<char>,
    p2: Seq<(int, int, int)>,
    li: int,
    c: int,
    cp: int,
    text: Seq<char>,
)
    requires
        lines_agree(s, p, s2, p2),
        0 <= li < p.len(),
        p[li].0 <= cp <= c <= p[li].1,
    ensures
        ({
            let r1 = decode_scan(s, p, li, c, cp, text);
            let r2 = decode_scan(s2, p2, li, c + shift(p, p2, li), cp + shift(p, p2, li), text);
            match (r1, r2) {
                (Some(a), Some(b)) => a.0 == b.0 && a.2 == b.2 && 0 <= a.2 < p.len() && b.1 == a.1 + shift(
                    p,
                    p2,
                    a.2,
                ) && p[a.2].0 <= a.1 < p[a.2].1,
                (None, None) => true,
                _ => false,
            }
        }),
    decreases p.len() - li, p[li].1 - c,
{
    let d = shift(p, p2, li);
    lemma_piece_agree(s, p, s2, p2, li, cp, p[li].1);
    if c < p[li].1 {
        if s[c] != '"' {
            lemma_decode_scan_agree(s, p, s2, p2, li, c + 1, cp, text);
        } else {
            lemma_piece_agree(s, p, s2, p2, li, cp, c);
            let t = text + s.subrange(cp, c);
            if c + 1 < p[li].1 && s[c + 1] == '"' {
                lemma_decode_scan_agree(s, p, s2, p2, li, c + 2, c + 2, t.push('"'));
            }
        }
    } else {
        let t = text + s.subrange(cp, p[li].1);
        assert(c + d == p2[li].1);
        assert(s2.subrange(cp + d, p2[li].1) == s.subrange(cp, p[li].1));
        if !(p[li].2 == p[li].1 || li + 1 >= p.len()) {
            let n = li + 1;
            lemma_piece_agree(s, p, s2, p2, n, p[n].0, p[n].1);
            lemma_indent_agree(s, p, s2, p2, n, p[n].0);
            let marker = indent_end(s, p[n].0, p[n].1);
            let dn = shift(p, p2, n);
            if marker < p[n].1 {
                lemma_piece_agree(s, p, s2, p2, n, marker, marker + 1);
            }
            assert(indent_end(s2, p2[n].0, p2[n].1) == marker + dn);
            if (0 <= marker < s.len() && s[marker] == '|') && marker + 1 <= p[n].1 {
                lemma_decode_scan_agree(s, p, s2, p2, n, marker + 1, marker + 1, t.push('\n'));
                assert(0 <= marker + dn < s2.len() && s2[marker + dn] == '|' && marker + dn + 1 <= p2[n].1);
            } else {
                assert(!((0 <= marker + dn < s2.len() && s2[marker + dn] == '|') && marker + dn + 1 <= p2[n].1));
            }
        }
    }
}

/// Decoded literals agree between sources that agree line by line.
proof fn lemma_decode_literal_agree(
    s: Seq<char>,
    p: Seq<(int, int, int)>,
    s2: Seq<char>,
    p2: Seq<(int, int, int)>,
    li: int,
    q: int,
)
    requires
        lines_agree(s, p, s2, p2),
        0 <= li < p.len(),
        p[li].0 <= q,
    ensures
        ({
            let r1 = decode_literal(s, p, li, q);
            let r2 = decode_literal(s2, p2, li, q + shift(p, p2, li));
            match (r1, r2) {
                (Some(a), Some(b)) => a.0 == b.0 && a.2 == b.2 && 0 <= a.2 < p.len() && b.1 == a.1 + shift(
                    p,
                    p2,
                    a.2,
                ) && p[a.2].0 <= a.1 < p[a.2].1,
                (None, None) => true,
                _ => false,
            }
        }),
{
    lemma_piece_agree(s, p, s2, p2, li, p[li].0, p[li].1);
    if q + 1 <= p[li].1 {
        lemma_piece_agree(s, p, s2, p2, li, q, q + 1);
        lemma_decode_scan_agree(s, p, s2, p2, li, q + 1, q + 1, Seq::empty());
    }
}

/// Two parsed statements agree on binding, text and last line.
pub open spec fn statements_agree(
    a: Option<crate::bsl::queries::StatementView>,
    b: Option<crate::bsl::queries::StatementView>,
) -> bool {
    match (a, b) {
        (Some(x), Some(y)) => x.binding == y.binding && x.text == y.text && x.last == y.last,
        (None, None) => true,
        _ => false,
    }
}

proof fn lemma_literal_end_agree(
    s: Seq<char>,
    p: Seq<(int, int, int)>,
    s2: Seq<char>,
    p2: Seq<(int, int, int)>,
    li: int,
    q: int,
)
    requires
        lines_agree(s, p, s2, p2),
        0 <= li < p.len(),
        p[li].0 <= q,
    ensures
        decode_literal(s, p, li, q) matches Some(a) ==> (decode_literal(s2, p2, li, q + shift(p, p2, li)) matches Some(b)
            && s.subrange(a.1 + 1, p[a.2].1) == s2.subrange(b.1 + 1, p2[b.2].1)),
{
    lemma_decode_literal_agree(s, p, s2, p2, li, q);
    if let Some(a) = decode_literal(s, p, li, q) {
        lemma_piece_agree(s, p, s2, p2, a.2, a.1 + 1, p[a.2].1);
    }
}

proof fn lemma_constructor_agree(
    s: Seq<char>,
    p: Seq<(int, int, int)>,
    s2: Seq<char>,
    p2: Seq<(int, int, int)>,
    li: int,
    t: Seq<char>,
    base: int,
)
    requires
        lines_agree(s, p, s2, p2),
        0 <= li < p.len(),
        p[li].0 <= base,
    ensures
        statements_agree(constructor(s, p, li, t, base), constructor(s2, p2, li, t, base + shift(p, p2, li))),
{
    if let Some(eq) = assignment_split(t) {
        let right = t.skip(eq + 1);
        let cons = strip_statement_end(trim(right));
        let prefix = if lower_starts_with(cons, "new query"@) {
            Some("new query"@)
        } else if lower_starts_with(cons, "новый запрос"@) {
            Some("новый запрос"@)
        } else {
            None
        };
        if prefix is Some {
            let rem = trim(skip_bytes(cons, utf8_len(prefix->0) as int));
            if rem.len() > 0 && find_sub(right, rem, 0) >= 0 {
                let after = rem.skip(1);
                let at = trim_start(after);
                lemma_skip_ws_bounds(after, 0);
                let q = base + eq + 1 + find_sub(right, rem, 0) + 1 + (after.len() - at.len());
                assert(eq >= 0);
                lemma_decode_literal_agree(s, p, s2, p2, li, q);
                lemma_literal_end_agree(s, p, s2, p2, li, q);
            }
        }
    }
}

proof fn lemma_text_assignment_agree(
    s: Seq<char>,
    p: Seq<(int, int, int)>,
    s2: Seq<char>,
    p2: Seq<(int, int, int)>,
    li: int,
    t: Seq<char>,
    base: int,
)
    requires
        lines_agree(s, p, s2, p2),
        0 <= li < p.len(),
        p[li].0 <= base,
    ensures
        statements_agree(
            text_assignment(s, p, li, t, base),
            text_assignment(s2, p2, li, t, base + shift(p, p2, li)),
        ),
{
    if let Some(eq) = assignment_split(t) {
        let right = t.skip(eq + 1);
        let value = trim_start(right);
        lemma_skip_ws_bounds(right, 0);
        assert(eq >= 0);
        let q = base + eq + 1 + (right.len() - value.len());
        lemma_decode_literal_agree(s, p, s2, p2, li, q);
        lemma_literal_end_agree(s, p, s2, p2, li, q);
    }
}

/// Two extraction results agree: the same error, or queries that are equal
/// once their source maps are set aside.
pub open spec fn results_agree(
    a: Result<Seq<QueryView>, QueryErrorView>,
    b: Result<Seq<QueryView>, QueryErrorView>,
) -> bool {
    match (a, b) {
        (Ok(x), Ok(y)) => erase_all(x) == erase_all(y),
        (Err(e), Err(f)) => e == f,
        _ => false,
    }
}

proof fn lemma_erase_concat(a: Seq<QueryView>, b: Seq<QueryView>)
    ensures
        erase_all(a + b) == erase_all(a) + erase_all(b),
{
    assert(erase_all(a + b) =~= erase_all(a) + erase_all(b));
}

proof fn lemma_query_scan_agree(
    s: Seq<char>,
    p: Seq<(int, int, int)>,
    s2: Seq<char>,
    p2: Seq<(int, int, int)>,
    module: Seq<char>,
    li: int,
    scope: Option<QueryScopeView>,
    c1: Seq<CandView>,
    c2: Seq<CandView>,
    all1: Seq<QueryView>,
    all2: Seq<QueryView>,
)
    requires
        lines_agree(s, p, s2, p2),
        0 <= li,
        erase_cands(c1) == erase_cands(c2),
        erase_all(all1) == erase_all(all2),
    ensures
        results_agree(
            query_scan(s, p, module, li, scope, c1, all1),
            query_scan(s2, p2, module, li, scope, c2, all2),
        ),
    decreases p.len() - li,
{
    let empty = Seq::<CandView>::empty();
    assert(erase_cands(empty) =~= erase_cands(empty));
    if li >= p.len() {
        lemma_flushed_erased(c1, c2);
        lemma_erase_concat(all1, flushed(c1));
        lemma_erase_concat(all2, flushed(c2));
    } else {
        lemma_piece_agree(s, p, s2, p2, li, p[li].0, p[li].1);
        let x = s.subrange(p[li].0, p[li].1);
        let k = skip_ws(x, 0);
        lemma_skip_ws_bounds(x, 0);
        let t = x.skip(k);
        let number = li + 1;
        let base = p[li].0 + k;
        assert(s2.subrange(p2[li].0, p2[li].1) == x);
        if k >= x.len() || crate::bsl::lexical::comment_at(x, k) || x[k] == '#' {
            lemma_query_scan_agree(s, p, s2, p2, module, li + 1, scope, c1, c2, all1, all2);
        } else {
            match scope_start(module, t, number) {
                Err(_) => {},
                Ok(Some(sc)) => {
                    lemma_query_scan_agree(s, p, s2, p2, module, li + 1, Some(sc), empty, empty, all1, all2);
                },
                Ok(None) => if scope_end(t) {
                    lemma_flushed_erased(c1, c2);
                    lemma_erase_concat(all1, flushed(c1));
                    lemma_erase_concat(all2, flushed(c2));
                    lemma_query_scan_agree(
                        s,
                        p,
                        s2,
                        p2,
                        module,
                        li + 1,
                        None,
                        empty,
                        empty,
                        all1 + flushed(c1),
                        all2 + flushed(c2),
                    );
                } else {
                    match scope {
                        None => lemma_query_scan_agree(s, p, s2, p2, module, li + 1, None, c1, c2, all1, all2),
                        Some(sc) => {
                            lemma_constructor_agree(s, p, s2, p2, li, t, base);
                            lemma_constructor_last(s, p, li, t, base);
                            match (constructor(s, p, li, t, base), constructor(s2, p2, li, t, base + shift(p, p2, li))) {
                                (Some(d1), Some(d2)) => {
                                    let id = crate::bsl::queries::query_id_text(sc.owner_id, d1.binding);
                                    let txt = match d1.text {
                                        Some(x) => x,
                                        None => Seq::empty(),
                                    };
                                    let q1 = QueryView {
                                        id,
                                        owner_id: sc.owner_id,
                                        owner_name: sc.owner_name,
                                        binding: d1.binding,
                                        text: txt,
                                        line: number,
                                        map: d1.map,
                                    };
                                    let q2 = QueryView { map: d2.map, ..q1 };
                                    if !all_ws(id) {
                                        let key = lowercase(d1.binding);
                                        lemma_add_constructor_erased(c1, c2, key, q1, q2, d1.text is Some);
                                        lemma_query_scan_agree(
                                            s,
                                            p,
                                            s2,
                                            p2,
                                            module,
                                            d1.last + 1,
                                            scope,
                                            add_constructor(c1, key, q1, d1.text is Some),
                                            add_constructor(c2, key, q2, d1.text is Some),
                                            all1,
                                            all2,
                                        );
                                    }
                                },
                                _ => {
                                    lemma_text_assignment_agree(s, p, s2, p2, li, t, base);
                                    lemma_assignment_last(s, p, li, t, base);
                                    match (
                                        text_assignment(s, p, li, t, base),
                                        text_assignment(s2, p2, li, t, base + shift(p, p2, li)),
                                    ) {
                                        (Some(a1), Some(a2)) => {
                                            let key = lowercase(a1.binding);
                                            lemma_apply_assignment_erased(c1, c2, key, a1.text, a1.map, a2.map);
                                            lemma_query_scan_agree(
                                                s,
                                                p,
                                                s2,
                                                p2,
                                                module,
                                                a1.last + 1,
                                                scope,
                                                apply_assignment(c1, key, a1.text, a1.map),
                                                apply_assignment(c2, key, a1.text, a2.map),
                                                all1,
                                                all2,
                                            );
                                        },
                                        _ => {
                                            lemma_query_scan_agree(s, p, s2, p2, module, li + 1, scope, c1, c2, all1, all2);
                                        },
                                    }
                                },
                            }
                        },
                    }
                },
            }
        }
    }
}

/// Query extraction sees only line contents and where lines end: sources
/// whose physical lines agree give the same error or the same queries,
/// once source maps are set aside, in collection order and in identifier
/// order.
pub proof fn law_queries_depend_only_on_lines(s: Seq<char>, s2: Seq<char>, module: Seq<char>)
    requires
        lines_agree(s, physical_lines(s), s2, physical_lines(s2)),
    ensures
        results_agree(collected_queries(s, module), collected_queries(s2, module)),
        collected_queries(s, module) is Ok ==> erase_all(sorted_unique(collected_queries(s, module)->Ok_0))
            == erase_all(sorted_unique(collected_queries(s2, module)->Ok_0)),
{
    let e = Seq::<QueryView>::empty();
    assert(erase_all(e) =~= erase_all(e));
    lemma_query_scan_agree(
        s,
        physical_lines(s),
        s2,
        physical_lines(s2),
        module,
        0,
        None,
        Seq::empty(),
        Seq::empty(),
        e,
        e,
    );
    if let (Ok(a), Ok(b)) = (collected_queries(s, module), collected_queries(s2, module)) {
        lemma_sorted_unique_erased(a, b);
    }
}

/// What a scalar becomes when line feeds are written as CR LF.
pub open spec fn crlf_piece(c: char) -> Seq<char> {
    if c == '\n' {
        seq!['\r', '\n']
    } else {
        seq![c]
    }
}

/// `s` with every line feed written as CR LF.
pub open spec fn crlf(s: Seq<char>) -> Seq<char>
    decreases s.len(),
{
    if s.len() == 0 {
        Seq::empty()
    } else {
        crlf(s.drop_last()) + crlf_piece(s.last())
    }
}

/// Where scalar `i` of `s` lands in `crlf(s)`.
pub open spec fn crlf_pos(s: Seq<char>, i: int) -> int {
    crlf(s.take(i)).len() as int
}

proof fn lemma_crlf_prefix(s: Seq<char>, j: int)
    requires
        0 <= j <= s.len(),
    ensures
        crlf(s.take(j)).len() <= crlf(s).len(),
        crlf(s.take(j)) == crlf(s).take(crlf(s.take(j)).len() as int),
    decreases s.len(),
{
    if j == s.len() {
        assert(s.take(j) =~= s);
        assert(crlf(s).take(crlf(s).len() as int) =~= crlf(s));
    } else {
        let r = s.drop_last();
        assert(s.take(j) =~= r.take(j));
        lemma_crlf_prefix(r, j);
        let c = crlf(r.take(j));
        assert(crlf(s) == crlf(r) + crlf_piece(s.last()));
        assert(crlf(s).take(c.len() as int) =~= crlf(r).take(c.len() as int));
    }
}

proof fn lemma_crlf_step(s: Seq<char>, i: int)
    requires
        0 <= i < s.len(),
    ensures
        crlf_pos(s, i + 1) == crlf_pos(s, i) + crlf_piece(s[i]).len(),
        crlf_pos(s, i + 1) <= crlf(s).len(),
        crlf(s).subrange(crlf_pos(s, i), crlf_pos(s, i + 1)) == crlf_piece(s[i]),
{
    assert(s.take(i + 1).drop_last() =~= s.take(i));
    assert(s.take(i + 1).last() == s[i]);
    let a = crlf(s.take(i));
    let b = crlf(s.take(i + 1));
    assert(b == a + crlf_piece(s[i]));
    lemma_crlf_prefix(s, i + 1);
    assert(crlf(s).subrange(a.len() as int, b.len() as int) =~= b.subrange(a.len() as int, b.len() as int));
    assert(b.subrange(a.len() as int, b.len() as int) =~= crlf_piece(s[i]));
}

proof fn lemma_crlf_zero_len(s: Seq<char>)
    ensures
        crlf_pos(s, 0) == 0,
        crlf_pos(s, s.len() as int) == crlf(s).len(),
        crlf(s).len() == 0 <==> s.len() == 0,
{
    assert(s.take(0) =~= Seq::<char>::empty());
    assert(s.take(s.len() as int) =~= s);
    if s.len() > 0 {
        assert(crlf(s) == crlf(s.drop_last()) + crlf_piece(s.last()));
    }
}

/// Between `i` and `n`, where `s` has no line feed, `crlf(s)` copies `s`.
proof fn lemma_crlf_run(s: Seq<char>, i: int, n: int)
    requires
        0 <= i <= n <= s.len(),
        forall|j: int| i <= j < n ==> s[j] != '\n',
    ensures
        crlf_pos(s, n) == crlf_pos(s, i) + (n - i),
        forall|j: int| i <= j < n ==> crlf(s)[crlf_pos(s, i) + (j - i)] == s[j],
    decreases n - i,
{
    if i < n {
        lemma_crlf_step(s, i);
        assert(crlf(s)[crlf_pos(s, i)] == crlf(s).subrange(crlf_pos(s, i), crlf_pos(s, i + 1))[0]);
        lemma_crlf_run(s, i + 1, n);
    }
}

proof fn lemma_newline_from_value(t: Seq<char>, a: int, b: int)
    requires
        0 <= a <= b <= t.len(),
        forall|j: int| a <= j < b ==> t[j] != '\n',
        b == t.len() || t[b] == '\n',
    ensures
        newline_from(t, a) == b,
    decreases b - a,
{
    if a < b {
        lemma_newline_from_value(t, a + 1, b);
    }
}

proof fn lemma_crlf_lines_from(s: Seq<char>, i: int)
    requires
        0 <= i <= s.len(),
        !s.contains('\r'),
    ensures
        lines_agree(s, physical_from(s, i), crlf(s), physical_from(crlf(s), crlf_pos(s, i))),
    decreases s.len() - i,
{
    let t = crlf(s);
    let a = crlf_pos(s, i);
    lemma_crlf_zero_len(s);
    lemma_crlf_prefix(s, i);
    if i >= s.len() {
        assert(physical_from(s, i) =~= Seq::<(int, int, int)>::empty());
        assert(a == t.len());
        assert(physical_from(t, a) =~= Seq::<(int, int, int)>::empty());
    } else {
        lemma_newline_from_bounds(s, i);
        let n = newline_from(s, i);
        assert forall|j: int| i <= j < n implies s[j] != '\n' by {
            lemma_newline_between(s, i, j);
        }
        lemma_crlf_run(s, i, n);
        let m = a + (n - i);
        assert(crlf_pos(s, n) == m);
        assert forall|j: int| a <= j < m implies t[j] != '\n' by {
            let j2 = i + (j - a);
            assert(t[a + (j2 - i)] == s[j2]);
        }
        if n >= s.len() {
            assert(m == t.len());
            assert(a < t.len());
            lemma_newline_from_value(t, a, m);
            let l1 = seq![(i, s.len() as int, s.len() as int)];
            let l2 = seq![(a, t.len() as int, t.len() as int)];
            assert(physical_from(s, i) == l1);
            assert(physical_from(t, a) == l2);
            assert(s.subrange(i, s.len() as int) =~= t.subrange(a, t.len() as int));
        } else {
            lemma_crlf_step(s, n);
            assert(crlf(s).subrange(m, crlf_pos(s, n + 1)) == seq!['\r', '\n']);
            assert(t[m] == '\r' && t[m + 1] == '\n');
            assert(crlf_pos(s, n + 1) == m + 2);
            assert forall|j: int| a <= j < m + 1 implies t[j] != '\n' by {
                if j < m {
                    let j2 = i + (j - a);
                    assert(t[a + (j2 - i)] == s[j2]);
                }
            }
            lemma_newline_from_value(t, a, m + 1);
            assert(n == i || s[n - 1] != '\r') by {
                if n > i {
                    assert(s.contains(s[n - 1]));
                }
            }
            lemma_crlf_lines_from(s, n + 1);
            let rest1 = physical_from(s, n + 1);
            let rest2 = physical_from(t, m + 2);
            assert(physical_from(s, i) == seq![(i, n, n + 1)] + rest1);
            assert(physical_from(t, a) == seq![(a, m, m + 2)] + rest2);
            assert(s.subrange(i, n) =~= t.subrange(a, m));
            let p1 = physical_from(s, i);
            let p2 = physical_from(t, a);
            assert forall|k: int| 0 <= k < p1.len() implies {
                &&& 0 <= (#[trigger] p1[k]).0 <= p1[k].1 <= p1[k].2 <= s.len()
                &&& 0 <= p2[k].0 <= p2[k].1 <= p2[k].2 <= t.len()
                &&& s.subrange(p1[k].0, p1[k].1) == t.subrange(p2[k].0, p2[k].1)
                &&& (p1[k].2 == p1[k].1) == (p2[k].2 == p2[k].1)
            } by {
                if k > 0 {
                    assert(p1[k] == rest1[k - 1]);
                    assert(p2[k] == rest2[k - 1]);
                }
            }
        }
    }
}

proof fn lemma_newline_between(s: Seq<char>, i: int, j: int)
    requires
        0 <= i <= j < newline_from(s, i),
    ensures
        s[j] != '\n',
    decreases j - i,
{
    lemma_newline_from_bounds(s, i);
    if i < j {
        assert(newline_from(s, i) == newline_from(s, i + 1));
        lemma_newline_between(s, i + 1, j);
    }
}

/// A source with LF line endings and the same source with CR LF line
/// endings give the same extraction result: the same error, or the same
/// queries in the same order once their source maps, which record
/// different offsets, are set aside.
pub proof fn law_crlf_and_lf_sources_give_the_same_queries(s: Seq<char>, module: Seq<char>)
    requires
        !s.contains('\r'),
    ensures
        results_agree(collected_queries(s, module), collected_queries(crlf(s), module)),
        collected_queries(s, module) is Ok ==> erase_all(sorted_unique(collected_queries(s, module)->Ok_0))
            == erase_all(sorted_unique(collected_queries(crlf(s), module)->Ok_0)),
{
    let t = crlf(s);
    lemma_crlf_zero_len(s);
    if s.len() == 0 {
        assert(t.len() == 0);
        assert(s =~= t);
    } else {
        lemma_crlf_lines_from(s, 0);
        assert(physical_lines(s) == physical_from(s, 0));
        assert(physical_lines(t) == physical_from(t, 0));
    }
    law_queries_depend_only_on_lines(s, t, module);
}

} // verus!
