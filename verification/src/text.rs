//! Character-level text primitives shared by the BSL and graph modules.

use vstd::prelude::*;

verus! {

/// Unicode `Alphabetic` property of a scalar value, as `char::is_alphabetic` reports it.
pub uninterp spec fn unicode_alphabetic(c: char) -> bool;

/// Unicode `Alphabetic` or `Numeric` property, as `char::is_alphanumeric` reports it.
pub uninterp spec fn unicode_alphanumeric(c: char) -> bool;

/// Unicode `White_Space` property, as `char::is_whitespace` reports it.
pub uninterp spec fn unicode_whitespace(c: char) -> bool;

/// Calls `char::is_alphabetic`; the result is the scalar's Unicode `Alphabetic` property.
#[verifier::external_body]
pub fn is_alphabetic(c: char) -> (r: bool)
    ensures
        r == unicode_alphabetic(c),
{
    c.is_alphabetic()
}

/// Calls `char::is_alphanumeric`; the result is the scalar's Unicode alphanumeric property.
#[verifier::external_body]
pub fn is_alphanumeric(c: char) -> (r: bool)
    ensures
        r == unicode_alphanumeric(c),
{
    c.is_alphanumeric()
}

/// Calls `char::is_whitespace`; the result is the scalar's Unicode `White_Space` property.
#[verifier::external_body]
pub fn is_whitespace(c: char) -> (r: bool)
    ensures
        r == unicode_whitespace(c),
{
    c.is_whitespace()
}

/// Calls `String::push`, which appends one scalar value to the string.
#[verifier::external_body]
pub fn push_char(s: &mut String, c: char)
    ensures
        final(s)@ == old(s)@.push(c),
{
    s.push(c);
}

/// Returns the scalar values of a string slice in order; the slice's UTF-8
/// encoding, which it is stored as, fits in memory.
pub fn chars_of(s: &str) -> (v: Vec<char>)
    ensures
        v@ == s@,
        utf8_len(s@) <= usize::MAX,
{
    let bytes = s.as_bytes();
    proof {
        lemma_encode_utf8_len(s@);
        assert(bytes@.len() == vstd::slice::spec_slice_len(bytes));
    }
    let mut v: Vec<char> = Vec::new();
    for c in it: s.chars()
        invariant
            v@ == it.seq().take(it.index() as int),
            it.seq() == s@,
    {
        v.push(c);
    }
    v
}

} // verus!

verus! {

/// Index of the first non-whitespace scalar at or after `i`, or `s.len()`.
pub open spec fn skip_ws(s: Seq<char>, i: int) -> int
    decreases s.len() - i,
{
    if 0 <= i < s.len() && unicode_whitespace(s[i]) {
        skip_ws(s, i + 1)
    } else {
        i
    }
}

/// End of `s.take(end)` once trailing whitespace is removed.
pub open spec fn back_ws(s: Seq<char>, end: int) -> int
    decreases end,
{
    if 0 < end <= s.len() && unicode_whitespace(s[end - 1]) {
        back_ws(s, end - 1)
    } else {
        end
    }
}

/// `str::trim_start`: the text without its leading Unicode whitespace.
pub open spec fn trim_start(s: Seq<char>) -> Seq<char> {
    s.skip(skip_ws(s, 0))
}

/// `str::trim_end`: the text without its trailing Unicode whitespace.
pub open spec fn trim_end(s: Seq<char>) -> Seq<char> {
    s.take(back_ws(s, s.len() as int))
}

/// `str::trim`: the text without leading and trailing Unicode whitespace.
pub open spec fn trim(s: Seq<char>) -> Seq<char> {
    trim_end(trim_start(s))
}

/// Every scalar of `s` is Unicode whitespace.
pub open spec fn all_ws(s: Seq<char>) -> bool {
    forall|i: int| 0 <= i < s.len() ==> unicode_whitespace(#[trigger] s[i])
}

pub proof fn lemma_skip_ws_bounds(s: Seq<char>, i: int)
    requires
        0 <= i <= s.len(),
    ensures
        i <= skip_ws(s, i) <= s.len(),
        forall|j: int| i <= j < skip_ws(s, i) ==> unicode_whitespace(#[trigger] s[j]),
        skip_ws(s, i) < s.len() ==> !unicode_whitespace(s[skip_ws(s, i)]),
    decreases s.len() - i,
{
    if i < s.len() && unicode_whitespace(s[i]) {
        lemma_skip_ws_bounds(s, i + 1);
    }
}

pub proof fn lemma_back_ws_bounds(s: Seq<char>, end: int)
    requires
        0 <= end <= s.len(),
    ensures
        0 <= back_ws(s, end) <= end,
        forall|j: int| back_ws(s, end) <= j < end ==> unicode_whitespace(#[trigger] s[j]),
        back_ws(s, end) > 0 ==> !unicode_whitespace(s[back_ws(s, end) - 1]),
    decreases end,
{
    if end > 0 && unicode_whitespace(s[end - 1]) {
        lemma_back_ws_bounds(s, end - 1);
    }
}

/// The whole text is whitespace exactly when trimming leaves nothing.
pub proof fn lemma_back_ws_take(s: Seq<char>, n: int, e: int)
    requires
        0 <= e <= n <= s.len(),
    ensures
        back_ws(s.take(n), e) == back_ws(s, e),
    decreases e,
{
    if e > 0 && unicode_whitespace(s[e - 1]) {
        lemma_back_ws_take(s, n, e - 1);
    }
}

pub proof fn lemma_trim_empty_iff_all_ws(s: Seq<char>)
    ensures
        (trim(s).len() == 0) <==> all_ws(s),
{
    lemma_skip_ws_bounds(s, 0);
    let t = trim_start(s);
    lemma_back_ws_bounds(t, t.len() as int);
    if all_ws(s) {
        assert(skip_ws(s, 0) == s.len()) by {
            if skip_ws(s, 0) < s.len() {
                assert(unicode_whitespace(s[skip_ws(s, 0)]));
            }
        }
    }
    if trim(s).len() == 0 {
        assert forall|i: int| 0 <= i < s.len() implies unicode_whitespace(#[trigger] s[i]) by {
            if i >= skip_ws(s, 0) {
                assert(t[i - skip_ws(s, 0)] == s[i]);
            }
        }
    }
}

/// Trimming is idempotent: trimmed text has nothing left to trim.
pub proof fn law_trim_idempotent(s: Seq<char>)
    ensures
        trim(trim(s)) == trim(s),
{
    lemma_skip_ws_bounds(s, 0);
    let u = trim_start(s);
    lemma_back_ws_bounds(u, u.len() as int);
    let e = back_ws(u, u.len() as int);
    let t = trim(s);
    assert(t == u.take(e));
    if t.len() > 0 {
        assert(t[0] == u[0]);
        assert(u[0] == s[skip_ws(s, 0)]);
        assert(!unicode_whitespace(t[0]));
        assert(t[e - 1] == u[e - 1]);
    }
    assert(skip_ws(t, 0) == 0);
    assert(trim_start(t) =~= t);
    assert(back_ws(t, t.len() as int) == t.len());
    assert(trim_end(t) =~= t);
}

/// Returns `skip_ws(v, i)`: the first non-whitespace position at or after `i`.
pub fn skip_whitespace(v: &[char], i: usize) -> (r: usize)
    requires
        i <= v@.len(),
    ensures
        r as int == skip_ws(v@, i as int),
        i <= r <= v@.len(),
{
    let mut k = i;
    while k < v.len() && is_whitespace(v[k])
        invariant
            i <= k <= v@.len(),
            skip_ws(v@, k as int) == skip_ws(v@, i as int),
        decreases v@.len() - k,
    {
        k = k + 1;
    }
    k
}

/// Returns `back_ws(v, end)`: the end once trailing whitespace before `end` is dropped.
pub fn back_whitespace(v: &[char], end: usize) -> (r: usize)
    requires
        end <= v@.len(),
    ensures
        r as int == back_ws(v@, end as int),
        r <= end,
{
    let mut k = end;
    while k > 0 && is_whitespace(v[k - 1])
        invariant
            k <= end <= v@.len(),
            back_ws(v@, k as int) == back_ws(v@, end as int),
        decreases k,
    {
        k = k - 1;
    }
    k
}

/// Returns whether every scalar of `s` is whitespace (`s.trim().is_empty()`).
pub fn is_blank(s: &str) -> (r: bool)
    ensures
        r == all_ws(s@),
{
    let v = chars_of(s);
    let mut i: usize = 0;
    while i < v.len()
        invariant
            i <= v@.len(),
            v@ == s@,
            forall|j: int| 0 <= j < i ==> unicode_whitespace(#[trigger] s@[j]),
        decreases v@.len() - i,
    {
        if !is_whitespace(v[i]) {
            return false;
        }
        i = i + 1;
    }
    true
}

/// Builds a `String` holding `v[from..to]`.
pub fn string_of_range(v: &[char], from: usize, to: usize) -> (r: String)
    requires
        from <= to <= v@.len(),
    ensures
        r@ == v@.subrange(from as int, to as int),
{
    let mut r = String::new();
    let mut i = from;
    while i < to
        invariant
            from <= i <= to <= v@.len(),
            r@ == v@.subrange(from as int, i as int),
        decreases to - i,
    {
        push_char(&mut r, v[i]);
        i = i + 1;
        assert(r@ == v@.subrange(from as int, i as int));
    }
    r
}

/// Builds a `String` holding all of `v`.
pub fn string_of(v: &[char]) -> (r: String)
    ensures
        r@ == v@,
{
    let r = string_of_range(v, 0, v.len());
    assert(v@.subrange(0, v@.len() as int) == v@);
    r
}

/// Returns whether `v[from..to]` spells exactly `lit`.
pub fn range_eq(v: &[char], from: usize, to: usize, lit: &str) -> (r: bool)
    requires
        from <= to <= v@.len(),
    ensures
        r == (v@.subrange(from as int, to as int) == lit@),
{
    let w = chars_of(lit);
    if to - from != w.len() {
        return false;
    }
    let mut i: usize = 0;
    while i < w.len()
        invariant
            i <= w@.len(),
            w@ == lit@,
            to - from == w@.len(),
            from <= to <= v@.len(),
            forall|j: int| 0 <= j < i ==> v@[from + j] == w@[j],
        decreases w@.len() - i,
    {
        if v[from + i] != w[i] {
            assert(v@.subrange(from as int, to as int)[i as int] != lit@[i as int]);
            return false;
        }
        i = i + 1;
    }
    assert(v@.subrange(from as int, to as int) =~= lit@);
    true
}

/// UTF-8 width of one scalar value.
pub open spec fn utf8_width(c: char) -> nat {
    if (c as u32) < 0x80 {
        1
    } else if (c as u32) < 0x800 {
        2
    } else if (c as u32) < 0x10000 {
        3
    } else {
        4
    }
}

/// UTF-8 byte length of a scalar sequence.
pub open spec fn utf8_len(s: Seq<char>) -> nat
    decreases s.len(),
{
    if s.len() == 0 {
        0
    } else {
        utf8_len(s.drop_last()) + utf8_width(s.last())
    }
}

/// UTF-8 byte offset of scalar index `i`.
pub open spec fn byte_at(s: Seq<char>, i: int) -> int {
    utf8_len(s.take(i)) as int
}

/// Returns the UTF-8 byte offset of every scalar index `0..=v.len()`.
pub fn byte_offsets(v: &[char]) -> (r: Vec<usize>)
    requires
        utf8_len(v@) <= usize::MAX,
    ensures
        r@.len() == v@.len() + 1,
        forall|i: int| 0 <= i <= v@.len() ==> (#[trigger] r@[i]) as int == byte_at(v@, i),
{
    let mut out: Vec<usize> = Vec::new();
    let mut total: usize = 0;
    let mut i: usize = 0;
    assert(v@.take(0) =~= Seq::<char>::empty());
    out.push(0);
    while i < v.len()
        invariant
            i <= v@.len(),
            utf8_len(v@) <= usize::MAX,
            out@.len() == i + 1,
            total as int == byte_at(v@, i as int),
            forall|k: int| 0 <= k <= i ==> (#[trigger] out@[k]) as int == byte_at(v@, k),
        decreases v@.len() - i,
    {
        assert(v@.take(i + 1).drop_last() == v@.take(i as int));
        proof {
            lemma_utf8_len_prefix_le(v@, i + 1);
        }
        total = total + char_width(v[i]);
        i = i + 1;
        out.push(total);
    }
    out
}

/// Returns the UTF-8 width of one scalar value (`char::len_utf8`).
pub fn char_width(c: char) -> (r: usize)
    ensures
        r as nat == utf8_width(c),
        1 <= r <= 4,
{
    let u = c as u32;
    if u < 0x80 {
        1
    } else if u < 0x800 {
        2
    } else if u < 0x10000 {
        3
    } else {
        4
    }
}

/// Decimal digit character of `d < 10`.
pub open spec fn digit_char(d: nat) -> char {
    if d == 0 {
        '0'
    } else if d == 1 {
        '1'
    } else if d == 2 {
        '2'
    } else if d == 3 {
        '3'
    } else if d == 4 {
        '4'
    } else if d == 5 {
        '5'
    } else if d == 6 {
        '6'
    } else if d == 7 {
        '7'
    } else if d == 8 {
        '8'
    } else {
        '9'
    }
}

/// Decimal representation of `n` without leading zeros.
pub open spec fn decimal(n: nat) -> Seq<char>
    decreases n,
{
    if n < 10 {
        seq![digit_char(n)]
    } else {
        decimal(n / 10).push(digit_char(n % 10))
    }
}

fn digit(d: usize) -> (c: char)
    requires
        d < 10,
    ensures
        c == digit_char(d as nat),
{
    if d == 0 {
        '0'
    } else if d == 1 {
        '1'
    } else if d == 2 {
        '2'
    } else if d == 3 {
        '3'
    } else if d == 4 {
        '4'
    } else if d == 5 {
        '5'
    } else if d == 6 {
        '6'
    } else if d == 7 {
        '7'
    } else if d == 8 {
        '8'
    } else {
        '9'
    }
}

/// Appends the decimal representation of `n`.
pub fn push_decimal(s: &mut String, n: usize)
    ensures
        final(s)@ == old(s)@ + decimal(n as nat),
    decreases n,
{
    if n >= 10 {
        push_decimal(s, n / 10);
    }
    push_char(s, digit(n % 10));
    assert(decimal(n as nat) =~= if n < 10 {
        seq![digit_char(n as nat)]
    } else {
        decimal((n / 10) as nat).push(digit_char((n % 10) as nat))
    });
}

/// Appends all scalars of `t`.
pub fn push_str(s: &mut String, t: &str)
    ensures
        final(s)@ == old(s)@ + t@,
{
    let v = chars_of(t);
    let ghost start = s@;
    let mut i: usize = 0;
    while i < v.len()
        invariant
            i <= v@.len(),
            v@ == t@,
            s@ == start + t@.take(i as int),
        decreases v@.len() - i,
    {
        push_char(s, v[i]);
        i = i + 1;
        assert(s@ == start + t@.take(i as int));
    }
    assert(t@.take(v@.len() as int) == t@);
}

/// Returns the UTF-8 byte length of `t` (`str::len`).
pub fn byte_length(t: &str) -> (r: usize)
    ensures
        r as nat == utf8_len(t@),
{
    let n = t.as_bytes().len();
    proof {
        lemma_encode_utf8_len(t@);
    }
    n
}

/// The UTF-8 length adds up from the first scalar as well as from the last.
proof fn lemma_utf8_len_first(s: Seq<char>)
    requires
        s.len() > 0,
    ensures
        utf8_len(s) == utf8_width(s[0]) + utf8_len(s.drop_first()),
    decreases s.len(),
{
    if s.len() > 1 {
        let a = s.drop_last();
        let b = s.drop_first();
        lemma_utf8_len_first(a);
        assert(a.drop_first() =~= b.drop_last());
        assert(a[0] == s[0]);
        assert(b.last() == s.last());
        assert(utf8_len(s) == utf8_len(a) + utf8_width(s.last()));
        assert(utf8_len(b) == utf8_len(b.drop_last()) + utf8_width(b.last()));
    } else {
        assert(s.drop_first().len() == 0);
        assert(s.drop_last().len() == 0);
        assert(utf8_len(s.drop_first()) == 0);
        assert(utf8_len(s.drop_last()) == 0);
        assert(s.last() == s[0]);
    }
}

/// `utf8_len` is the length of the UTF-8 encoding.
pub proof fn lemma_encode_utf8_len(s: Seq<char>)
    ensures
        vstd::utf8::encode_utf8(s).len() == utf8_len(s),
    decreases s.len(),
{
    if s.len() > 0 {
        lemma_encode_utf8_len(s.drop_first());
        lemma_utf8_len_first(s);
        let c = s[0] as u32;
        vstd::utf8::char_is_scalar(s[0]);
        assert(vstd::utf8::encode_scalar(c).len() == utf8_width(s[0]));
        assert(vstd::utf8::encode_utf8(s) == vstd::utf8::encode_scalar(c) + vstd::utf8::encode_utf8(
            s.drop_first(),
        ));
    }
}

proof fn lemma_utf8_len_prefix_le(s: Seq<char>, i: int)
    requires
        0 <= i <= s.len(),
    ensures
        utf8_len(s.take(i)) <= utf8_len(s),
    decreases s.len() - i,
{
    if i < s.len() {
        lemma_utf8_len_prefix_le(s, i + 1);
        assert(s.take(i + 1).drop_last() == s.take(i));
    } else {
        assert(s.take(i) == s);
    }
}

pub proof fn lemma_utf8_len_bound(s: Seq<char>)
    ensures
        utf8_len(s) <= 4 * s.len(),
    decreases s.len(),
{
    if s.len() > 0 {
        lemma_utf8_len_bound(s.drop_last());
    }
}

/// Returns the bounds of `trim(v)` inside `v`.
pub fn trim_range(v: &[char]) -> (r: (usize, usize))
    ensures
        r.0 <= r.1 <= v@.len(),
        v@.subrange(r.0 as int, r.1 as int) == trim(v@),
        r.0 as int == skip_ws(v@, 0),
{
    let k = skip_whitespace(v, 0);
    let ghost t = v@.skip(k as int);
    let mut end = v.len();
    while end > k && is_whitespace(v[end - 1])
        invariant
            k <= end <= v@.len(),
            t == v@.skip(k as int),
            back_ws(t, end - k) == back_ws(t, t.len() as int),
        decreases end,
    {
        assert(t[end - 1 - k] == v@[end - 1]);
        end = end - 1;
    }
    proof {
        if end > k {
            assert(t[end - 1 - k] == v@[end - 1]);
        }
        assert(back_ws(t, end - k) == end - k);
        assert(v@.subrange(k as int, end as int) =~= t.take(end - k));
    }
    (k, end)
}

/// Returns `trim(s)` as an owned string (`s.trim().to_owned()`).
pub fn trimmed(s: &str) -> (r: String)
    ensures
        r@ == trim(s@),
{
    let v = chars_of(s);
    let (a, b) = trim_range(&v);
    string_of_range(&v, a, b)
}

/// Lexicographic order of scalar sequences by code point, from index `i` on.
pub open spec fn lex_from(a: Seq<char>, b: Seq<char>, i: int) -> bool
    decreases a.len() - i,
{
    if i < 0 {
        false
    } else if i >= a.len() {
        i < b.len()
    } else if i >= b.len() {
        false
    } else if a[i] != b[i] {
        (a[i] as int) < (b[i] as int)
    } else {
        lex_from(a, b, i + 1)
    }
}

/// `a` sorts strictly before `b` (the order of `String`).
pub open spec fn lex_lt(a: Seq<char>, b: Seq<char>) -> bool {
    lex_from(a, b, 0)
}

pub proof fn lemma_lex_irreflexive(a: Seq<char>, i: int)
    requires
        0 <= i,
    ensures
        !lex_from(a, a, i),
    decreases a.len() - i,
{
    if i < a.len() {
        lemma_lex_irreflexive(a, i + 1);
    }
}

pub proof fn lemma_lex_transitive(a: Seq<char>, b: Seq<char>, c: Seq<char>, i: int)
    requires
        0 <= i,
        lex_from(a, b, i),
        lex_from(b, c, i),
    ensures
        lex_from(a, c, i),
    decreases a.len() - i,
{
    if i < a.len() && i < b.len() && i < c.len() && a[i] == b[i] && b[i] == c[i] {
        lemma_lex_transitive(a, b, c, i + 1);
    }
}

pub proof fn lemma_lex_total(a: Seq<char>, b: Seq<char>, i: int)
    requires
        0 <= i <= a.len(),
        i <= b.len(),
    ensures
        lex_from(a, b, i) || lex_from(b, a, i) || a.skip(i) == b.skip(i),
    decreases a.len() - i,
{
    if i < a.len() && i < b.len() && a[i] == b[i] {
        lemma_lex_total(a, b, i + 1);
        if a.skip(i + 1) == b.skip(i + 1) {
            assert(a.skip(i + 1).len() == b.skip(i + 1).len());
            assert(a.len() == b.len());
            assert(a.skip(i) =~= b.skip(i)) by {
                assert forall|j: int| 0 <= j < a.skip(i).len() implies a.skip(i)[j] == b.skip(i)[j] by {
                    if j > 0 {
                        assert(a.skip(i)[j] == a.skip(i + 1)[j - 1]);
                        assert(b.skip(i)[j] == b.skip(i + 1)[j - 1]);
                    }
                }
            }
        }
    } else if i >= a.len() && i >= b.len() {
        assert(a.skip(i) =~= b.skip(i));
    } else if i < a.len() && i < b.len() {
        assert((a[i] as int) != (b[i] as int));
    }
}

/// `lex_lt` is a strict total order.
pub proof fn lemma_lex_order(a: Seq<char>, b: Seq<char>, c: Seq<char>)
    ensures
        !lex_lt(a, a),
        lex_lt(a, b) && lex_lt(b, c) ==> lex_lt(a, c),
        a != b ==> lex_lt(a, b) || lex_lt(b, a),
{
    lemma_lex_irreflexive(a, 0);
    if lex_lt(a, b) && lex_lt(b, c) {
        lemma_lex_transitive(a, b, c, 0);
    }
    lemma_lex_total(a, b, 0);
    assert(a.skip(0) =~= a);
    assert(b.skip(0) =~= b);
}

/// Returns `lex_lt(a, b)`: whether `a` sorts strictly before `b` as a `String`.
pub fn text_less(a: &str, b: &str) -> (r: bool)
    ensures
        r == lex_lt(a@, b@),
{
    let x = chars_of(a);
    let y = chars_of(b);
    let mut i: usize = 0;
    while i < x.len() && i < y.len() && x[i] == y[i]
        invariant
            i <= x@.len(),
            i <= y@.len(),
            x@ == a@,
            y@ == b@,
            lex_from(x@, y@, i as int) == lex_from(x@, y@, 0),
        decreases x@.len() - i,
    {
        i = i + 1;
    }
    if i >= x.len() {
        i < y.len()
    } else if i >= y.len() {
        false
    } else {
        x[i] < y[i]
    }
}

/// Returns whether two strings hold the same scalars.
pub fn text_equal(a: &str, b: &str) -> (r: bool)
    ensures
        r == (a@ == b@),
{
    let x = chars_of(a);
    let y = chars_of(b);
    if x.len() != y.len() {
        return false;
    }
    let mut i: usize = 0;
    while i < x.len()
        invariant
            i <= x@.len(),
            x@.len() == y@.len(),
            x@ == a@,
            y@ == b@,
            forall|j: int| 0 <= j < i ==> x@[j] == y@[j],
        decreases x@.len() - i,
    {
        if x[i] != y[i] {
            return false;
        }
        i = i + 1;
    }
    assert(x@ =~= y@);
    true
}

} // verus!
