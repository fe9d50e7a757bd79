//! Stable semantic edge identity construction.
//!
//! The identity of a relation is
//! `edge:source#<bytes>:<source>;target#<bytes>:<target>;kind:<code>`, where each
//! byte count is the UTF-8 length of the component that follows it, so that
//! concatenated components cannot collide.

use vstd::prelude::*;

use crate::graph::identity::EdgeId;
use crate::graph::kind::EdgeKind;
use crate::text::{byte_length, decimal, digit_char, push_decimal, push_str, utf8_len};

verus! {

/// Stable machine code of an edge kind.
pub open spec fn edge_kind_code_text(kind: EdgeKind) -> Seq<char> {
    match kind {
        EdgeKind::Contains => "contains"@,
        EdgeKind::Calls => "calls"@,
        EdgeKind::References => "references"@,
        EdgeKind::Reads => "reads"@,
        EdgeKind::Writes => "writes"@,
        EdgeKind::Grants => "grants"@,
        EdgeKind::Includes => "includes"@,
        EdgeKind::Extends => "extends"@,
        EdgeKind::DependsOn => "depends_on"@,
        EdgeKind::Opens => "opens"@,
        EdgeKind::Triggers => "triggers"@,
    }
}

/// Returns the stable machine code of an edge kind.
pub fn edge_kind_code(kind: EdgeKind) -> (r: &'static str)
    ensures
        r@ == edge_kind_code_text(kind),
{
    match kind {
        EdgeKind::Contains => "contains",
        EdgeKind::Calls => "calls",
        EdgeKind::References => "references",
        EdgeKind::Reads => "reads",
        EdgeKind::Writes => "writes",
        EdgeKind::Grants => "grants",
        EdgeKind::Includes => "includes",
        EdgeKind::Extends => "extends",
        EdgeKind::DependsOn => "depends_on",
        EdgeKind::Opens => "opens",
        EdgeKind::Triggers => "triggers",
    }
}

/// Identity text of the relation `source -kind-> target`.
pub open spec fn edge_identity_text(source: Seq<char>, target: Seq<char>, kind: EdgeKind) -> Seq<
    char,
> {
    "edge:source#"@ + decimal(utf8_len(source)) + ":"@ + source + ";target#"@ + decimal(
        utf8_len(target),
    ) + ":"@ + target + ";kind:"@ + edge_kind_code_text(kind)
}

/// Builds the stable identity for one canonical semantic relation.
pub fn edge_id(source: &str, target: &str, kind: EdgeKind) -> (r: EdgeId)
    ensures
        r@ == edge_identity_text(source@, target@, kind),
{
    let mut text = String::new();
    push_str(&mut text, "edge:source#");
    push_decimal(&mut text, byte_length(source));
    push_str(&mut text, ":");
    push_str(&mut text, source);
    push_str(&mut text, ";target#");
    push_decimal(&mut text, byte_length(target));
    push_str(&mut text, ":");
    push_str(&mut text, target);
    push_str(&mut text, ";kind:");
    push_str(&mut text, edge_kind_code(kind));
    EdgeId::from_string(text)
}

proof fn lemma_cancel_prefix(a: Seq<char>, x: Seq<char>, y: Seq<char>)
    requires
        a + x == a + y,
    ensures
        x == y,
{
    assert(x =~= (a + x).skip(a.len() as int));
    assert(y =~= (a + y).skip(a.len() as int));
}

proof fn lemma_utf8_len_concat(a: Seq<char>, b: Seq<char>)
    ensures
        utf8_len(a + b) == utf8_len(a) + utf8_len(b),
    decreases b.len(),
{
    if b.len() > 0 {
        lemma_utf8_len_concat(a, b.drop_last());
        assert((a + b).drop_last() =~= a + b.drop_last());
        assert((a + b).last() == b.last());
    } else {
        assert(a + b =~= a);
    }
}

proof fn lemma_utf8_len_positive(a: Seq<char>)
    requires
        a.len() > 0,
    ensures
        utf8_len(a) > 0,
{
}

/// Two splittings of one text whose first parts have equal UTF-8 lengths
/// are the same splitting.
proof fn lemma_split_by_width(a1: Seq<char>, r1: Seq<char>, a2: Seq<char>, r2: Seq<char>)
    requires
        a1 + r1 == a2 + r2,
        utf8_len(a1) == utf8_len(a2),
    ensures
        a1 == a2,
        r1 == r2,
{
    let x = a1 + r1;
    if a1.len() <= a2.len() {
        let rest = a2.skip(a1.len() as int);
        assert(a2 =~= a1 + rest) by {
            assert forall|i: int| 0 <= i < a1.len() implies a2[i] == a1[i] by {
                assert(x[i] == a1[i]);
                assert(x[i] == a2[i]);
            }
        }
        lemma_utf8_len_concat(a1, rest);
        if rest.len() > 0 {
            lemma_utf8_len_positive(rest);
        }
        assert(rest.len() == 0);
        assert(a1 =~= a2);
    } else {
        let rest = a1.skip(a2.len() as int);
        assert(a1 =~= a2 + rest) by {
            assert forall|i: int| 0 <= i < a2.len() implies a1[i] == a2[i] by {
                assert(x[i] == a1[i]);
                assert(x[i] == a2[i]);
            }
        }
        lemma_utf8_len_concat(a2, rest);
        lemma_utf8_len_positive(rest);
    }
    lemma_cancel_prefix(a1, r1, r2);
}

proof fn lemma_decimal_shape(n: nat)
    ensures
        decimal(n).len() >= 1,
        n >= 10 ==> decimal(n).len() >= 2,
        forall|i: int| 0 <= i < decimal(n).len() ==> #[trigger] decimal(n)[i] != ':',
    decreases n,
{
    if n >= 10 {
        lemma_decimal_shape(n / 10);
        let d = decimal(n / 10);
        assert forall|i: int| 0 <= i < decimal(n).len() implies #[trigger] decimal(n)[i] != ':' by {
            if i < d.len() {
                assert(decimal(n)[i] == d[i]);
            }
        }
    }
}

proof fn lemma_digit_char_injective(x: nat, y: nat)
    requires
        x < 10,
        y < 10,
        digit_char(x) == digit_char(y),
    ensures
        x == y,
{
}

proof fn lemma_decimal_injective(a: nat, b: nat)
    requires
        decimal(a) == decimal(b),
    ensures
        a == b,
    decreases a,
{
    lemma_decimal_shape(a);
    lemma_decimal_shape(b);
    if a < 10 && b < 10 {
        assert(decimal(a)[0] == digit_char(a));
        assert(decimal(b)[0] == digit_char(b));
        lemma_digit_char_injective(a, b);
    } else if a >= 10 && b >= 10 {
        let da = decimal(a);
        assert(da.last() == digit_char(a % 10));
        assert(decimal(b).last() == digit_char(b % 10));
        lemma_digit_char_injective(a % 10, b % 10);
        assert(da.drop_last() == decimal(a / 10));
        assert(decimal(b).drop_last() == decimal(b / 10));
        lemma_decimal_injective(a / 10, b / 10);
        assert(a == 10 * (a / 10) + a % 10);
        assert(b == 10 * (b / 10) + b % 10);
    }
}

/// A colon-free part followed by a colon splits a text in one way only.
proof fn lemma_split_at_colon(d1: Seq<char>, r1: Seq<char>, d2: Seq<char>, r2: Seq<char>)
    requires
        d1 + (seq![':'] + r1) == d2 + (seq![':'] + r2),
        forall|i: int| 0 <= i < d1.len() ==> #[trigger] d1[i] != ':',
        forall|i: int| 0 <= i < d2.len() ==> #[trigger] d2[i] != ':',
    ensures
        d1 == d2,
        r1 == r2,
{
    let x = d1 + (seq![':'] + r1);
    if d1.len() < d2.len() {
        assert(x[d1.len() as int] == ':');
        assert(x[d1.len() as int] == d2[d1.len() as int]);
    } else if d2.len() < d1.len() {
        assert(x[d2.len() as int] == ':');
        assert(x[d2.len() as int] == d1[d2.len() as int]);
    }
    assert(d1 =~= d2) by {
        assert forall|i: int| 0 <= i < d1.len() implies d1[i] == d2[i] by {
            assert(x[i] == d1[i]);
            assert(x[i] == d2[i]);
        }
    }
    assert(d1 + (seq![':'] + r1) =~= (d1 + seq![':']) + r1);
    assert(d2 + (seq![':'] + r2) =~= (d2 + seq![':']) + r2);
    lemma_cancel_prefix(d1 + seq![':'], r1, r2);
}

proof fn lemma_edge_kind_code_injective(a: EdgeKind, b: EdgeKind)
    requires
        edge_kind_code_text(a) == edge_kind_code_text(b),
    ensures
        a == b,
{
    reveal_strlit("contains");
    reveal_strlit("calls");
    reveal_strlit("references");
    reveal_strlit("reads");
    reveal_strlit("writes");
    reveal_strlit("grants");
    reveal_strlit("includes");
    reveal_strlit("extends");
    reveal_strlit("depends_on");
    reveal_strlit("opens");
    reveal_strlit("triggers");
    let y = edge_kind_code_text(b);
    match a {
        EdgeKind::Contains => assert(y.len() == 8 && y[0] == 'c'),
        EdgeKind::Calls => assert(y.len() == 5 && y[0] == 'c'),
        EdgeKind::References => assert(y.len() == 10 && y[0] == 'r'),
        EdgeKind::Reads => assert(y.len() == 5 && y[0] == 'r'),
        EdgeKind::Writes => assert(y.len() == 6 && y[0] == 'w'),
        EdgeKind::Grants => assert(y.len() == 6 && y[0] == 'g'),
        EdgeKind::Includes => assert(y.len() == 8 && y[0] == 'i'),
        EdgeKind::Extends => assert(y.len() == 7 && y[0] == 'e'),
        EdgeKind::DependsOn => assert(y.len() == 10 && y[0] == 'd'),
        EdgeKind::Opens => assert(y.len() == 5 && y[0] == 'o'),
        EdgeKind::Triggers => assert(y.len() == 8 && y[0] == 't'),
    }
}

/// The identity text, grouped from the right.
spec fn identity_nested(s: Seq<char>, t: Seq<char>, k: EdgeKind) -> Seq<char> {
    "edge:source#"@ + (decimal(utf8_len(s)) + (seq![':'] + (s + (";target#"@ + (decimal(utf8_len(t)) + (seq![
        ':',
    ] + (t + (";kind:"@ + edge_kind_code_text(k)))))))))
}

proof fn lemma_identity_nested(s: Seq<char>, t: Seq<char>, k: EdgeKind)
    ensures
        edge_identity_text(s, t, k) == identity_nested(s, t, k),
{
    reveal_strlit(":");
    assert(":"@ =~= seq![':']);
    assert(edge_identity_text(s, t, k) =~= identity_nested(s, t, k));
}

/// Edge identities are injective: two relations have the same identity
/// exactly when they have the same source, target and kind, since each
/// component's length precedes it.
pub proof fn law_edge_identity_injective(
    s1: Seq<char>,
    t1: Seq<char>,
    k1: EdgeKind,
    s2: Seq<char>,
    t2: Seq<char>,
    k2: EdgeKind,
)
    ensures
        (edge_identity_text(s1, t1, k1) == edge_identity_text(s2, t2, k2)) <==> (s1 == s2 && t1 == t2 && k1
            == k2),
{
    if edge_identity_text(s1, t1, k1) == edge_identity_text(s2, t2, k2) {
        lemma_identity_nested(s1, t1, k1);
        lemma_identity_nested(s2, t2, k2);
        let c = seq![':'];
        let a = "edge:source#"@;
        let b = ";target#"@;
        let k = ";kind:"@;
        let d1 = decimal(utf8_len(s1));
        let d2 = decimal(utf8_len(s2));
        let e1 = decimal(utf8_len(t1));
        let e2 = decimal(utf8_len(t2));
        let u1 = t1 + (k + edge_kind_code_text(k1));
        let u2 = t2 + (k + edge_kind_code_text(k2));
        let v1 = e1 + (c + u1);
        let v2 = e2 + (c + u2);
        let z1 = s1 + (b + v1);
        let z2 = s2 + (b + v2);
        lemma_cancel_prefix(a, d1 + (c + z1), d2 + (c + z2));
        lemma_decimal_shape(utf8_len(s1));
        lemma_decimal_shape(utf8_len(s2));
        lemma_split_at_colon(d1, z1, d2, z2);
        lemma_decimal_injective(utf8_len(s1), utf8_len(s2));
        lemma_split_by_width(s1, b + v1, s2, b + v2);
        lemma_cancel_prefix(b, v1, v2);
        lemma_decimal_shape(utf8_len(t1));
        lemma_decimal_shape(utf8_len(t2));
        lemma_split_at_colon(e1, u1, e2, u2);
        lemma_decimal_injective(utf8_len(t1), utf8_len(t2));
        lemma_split_by_width(t1, k + edge_kind_code_text(k1), t2, k + edge_kind_code_text(k2));
        lemma_cancel_prefix(k, edge_kind_code_text(k1), edge_kind_code_text(k2));
        lemma_edge_kind_code_injective(k1, k2);
    }
}

} // verus!
