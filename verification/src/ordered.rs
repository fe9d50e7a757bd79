//! Ordering of values by a two-part text key: stable insertion, and
//! insertion that keeps the first value of each key.

use vstd::prelude::*;

use crate::text::{lemma_lex_irreflexive, lemma_lex_total, lemma_lex_transitive, lex_lt, text_equal, text_less};

verus! {

/// A sort key: a primary and a secondary text, compared in that order.
pub type KeyView = (Seq<char>, Seq<char>);

/// Key order: by the primary text, then by the secondary text.
pub open spec fn key_lt(a: KeyView, b: KeyView) -> bool {
    lex_lt(a.0, b.0) || (a.0 == b.0 && lex_lt(a.1, b.1))
}

/// First position of `r` from `i` on whose key does not sort before `k`.
pub open spec fn lower_pos<V>(r: Seq<(KeyView, V)>, k: KeyView, i: int) -> int
    decreases r.len() - i,
{
    if 0 <= i < r.len() && key_lt(r[i].0, k) {
        lower_pos(r, k, i + 1)
    } else {
        i
    }
}

/// First position of `r` from `i` on whose key sorts after `k`.
pub open spec fn upper_pos<V>(r: Seq<(KeyView, V)>, k: KeyView, i: int) -> int
    decreases r.len() - i,
{
    if 0 <= i < r.len() && !key_lt(k, r[i].0) {
        upper_pos(r, k, i + 1)
    } else {
        i
    }
}

/// `x` inserted into the key-ordered `r` unless its key is present.
pub open spec fn insert_unique<V>(r: Seq<(KeyView, V)>, x: (KeyView, V)) -> Seq<(KeyView, V)> {
    let p = lower_pos(r, x.0, 0);
    if 0 <= p < r.len() && r[p].0 == x.0 {
        r
    } else {
        r.insert(p, x)
    }
}

/// `x` inserted into the key-ordered `r` after every entry with its key.
pub open spec fn insert_stable<V>(r: Seq<(KeyView, V)>, x: (KeyView, V)) -> Seq<(KeyView, V)> {
    r.insert(upper_pos(r, x.0, 0), x)
}

/// `all` ordered by key, keeping the first entry of each key.
pub open spec fn sorted_unique<V>(all: Seq<(KeyView, V)>) -> Seq<(KeyView, V)>
    decreases all.len(),
{
    if all.len() == 0 {
        Seq::empty()
    } else {
        insert_unique(sorted_unique(all.drop_last()), all.last())
    }
}

/// `all` ordered by key; entries with equal keys keep their order.
pub open spec fn sorted_stable<V>(all: Seq<(KeyView, V)>) -> Seq<(KeyView, V)>
    decreases all.len(),
{
    if all.len() == 0 {
        Seq::empty()
    } else {
        insert_stable(sorted_stable(all.drop_last()), all.last())
    }
}

/// Stable ordering keeps every entry and adds none: it has the length of its
/// input, and each of its entries is an entry of the input.
pub proof fn lemma_sorted_stable_members<V>(all: Seq<(KeyView, V)>)
    ensures
        sorted_stable(all).len() == all.len(),
        forall|k: int|
            0 <= k < sorted_stable(all).len() ==> exists|j: int|
                0 <= j < all.len() && all[j] == #[trigger] sorted_stable(all)[k],
    decreases all.len(),
{
    if all.len() > 0 {
        let prev = all.drop_last();
        lemma_sorted_stable_members(prev);
        let r = sorted_stable(prev);
        lemma_upper_pos_bounds(r, all.last().0, 0);
        let p = upper_pos(r, all.last().0, 0);
        let t = sorted_stable(all);
        assert(t == r.insert(p, all.last()));
        assert forall|k: int| 0 <= k < t.len() implies exists|j: int|
            0 <= j < all.len() && all[j] == #[trigger] t[k] by {
            if k < p {
                let j = choose|j: int| 0 <= j < prev.len() && prev[j] == r[k];
                assert(all[j] == t[k]);
            } else if k == p {
                assert(all[all.len() - 1] == t[k]);
            } else {
                let j = choose|j: int| 0 <= j < prev.len() && prev[j] == r[k - 1];
                assert(all[j] == t[k]);
            }
        }
    }
}

/// Stable ordering loses no entry: each entry of the input is in the output.
pub proof fn lemma_sorted_stable_keeps<V>(all: Seq<(KeyView, V)>)
    ensures
        forall|j: int| 0 <= j < all.len() ==> sorted_stable(all).contains(#[trigger] all[j]),
    decreases all.len(),
{
    if all.len() > 0 {
        let prev = all.drop_last();
        lemma_sorted_stable_keeps(prev);
        let r = sorted_stable(prev);
        lemma_upper_pos_bounds(r, all.last().0, 0);
        let p = upper_pos(r, all.last().0, 0);
        let t = sorted_stable(all);
        assert(t == r.insert(p, all.last()));
        assert forall|j: int| 0 <= j < all.len() implies t.contains(#[trigger] all[j]) by {
            if j == all.len() - 1 {
                assert(t[p] == all[j]);
            } else {
                assert(prev[j] == all[j]);
                assert(r.contains(prev[j]));
                let k = choose|k: int| 0 <= k < r.len() && r[k] == prev[j];
                if k < p {
                    assert(t[k] == all[j]);
                } else {
                    assert(t[k + 1] == all[j]);
                }
            }
        }
    }
}

proof fn lemma_upper_pos_bounds<V>(r: Seq<(KeyView, V)>, k: KeyView, i: int)
    requires
        0 <= i <= r.len(),
    ensures
        i <= upper_pos(r, k, i) <= r.len(),
    decreases r.len() - i,
{
    if i < r.len() && !key_lt(k, r[i].0) {
        lemma_upper_pos_bounds(r, k, i + 1);
    }
}

/// Every element sorts strictly before every later one.
pub open spec fn strictly_sorted<A>(s: Seq<A>, lt: spec_fn(A, A) -> bool) -> bool {
    forall|i: int, j: int| 0 <= i < j < s.len() ==> lt(#[trigger] s[i], #[trigger] s[j])
}

/// Two sequences that are strictly sorted by the same strict order and hold
/// the same elements are equal.
pub proof fn lemma_strictly_sorted_equal<A>(s: Seq<A>, t: Seq<A>, lt: spec_fn(A, A) -> bool)
    requires
        strictly_sorted(s, lt),
        strictly_sorted(t, lt),
        forall|x: A| s.contains(x) <==> t.contains(x),
        forall|x: A, y: A, z: A| #[trigger] lt(x, y) && #[trigger] lt(y, z) ==> lt(x, z),
        forall|x: A| !(#[trigger] lt(x, x)),
    ensures
        s == t,
    decreases s.len(),
{
    if s.len() == 0 {
        if t.len() > 0 {
            assert(t.contains(t[0]));
        }
        assert(s =~= t);
    } else {
        assert(s.contains(s[0]));
        let b = choose|b: int| 0 <= b < t.len() && t[b] == s[0];
        assert(t.contains(t[0]));
        let a = choose|a: int| 0 <= a < s.len() && s[a] == t[0];
        if a > 0 {
            assert(lt(s[0], s[a]));
            if b > 0 {
                assert(lt(t[0], t[b]));
            }
        }
        assert(s[0] == t[0]);
        let x0 = s[0];
        let s1 = s.drop_first();
        let t1 = t.drop_first();
        assert forall|x: A| s1.contains(x) <==> t1.contains(x) by {
            if s1.contains(x) {
                let k = choose|k: int| 0 <= k < s1.len() && s1[k] == x;
                assert(s[k + 1] == x);
                assert(s.contains(x));
                let m = choose|m: int| 0 <= m < t.len() && t[m] == x;
                if m == 0 {
                    assert(lt(s[0], s[k + 1]));
                }
                assert(t1[m - 1] == x);
            }
            if t1.contains(x) {
                let k = choose|k: int| 0 <= k < t1.len() && t1[k] == x;
                assert(t[k + 1] == x);
                assert(t.contains(x));
                let m = choose|m: int| 0 <= m < s.len() && s[m] == x;
                if m == 0 {
                    assert(lt(t[0], t[k + 1]));
                }
                assert(s1[m - 1] == x);
            }
        }
        assert(strictly_sorted(s1, lt)) by {
            assert forall|i: int, j: int| 0 <= i < j < s1.len() implies lt(#[trigger] s1[i], #[trigger] s1[j]) by {
                assert(s1[i] == s[i + 1] && s1[j] == s[j + 1]);
            }
        }
        assert(strictly_sorted(t1, lt)) by {
            assert forall|i: int, j: int| 0 <= i < j < t1.len() implies lt(#[trigger] t1[i], #[trigger] t1[j]) by {
                assert(t1[i] == t[i + 1] && t1[j] == t[j + 1]);
            }
        }
        lemma_strictly_sorted_equal(s1, t1, lt);
        assert(s =~= seq![x0] + s1);
        assert(t =~= seq![x0] + t1);
    }
}

/// Key order is a strict total order.
pub proof fn lemma_key_order(a: KeyView, b: KeyView, c: KeyView)
    ensures
        !key_lt(a, a),
        key_lt(a, b) && key_lt(b, c) ==> key_lt(a, c),
        a != b ==> key_lt(a, b) || key_lt(b, a),
{
    crate::text::lemma_lex_order(a.0, b.0, c.0);
    crate::text::lemma_lex_order(a.1, b.1, c.1);
    crate::text::lemma_lex_order(a.0, c.0, c.0);
    crate::text::lemma_lex_order(a.1, c.1, c.1);
    crate::text::lemma_lex_order(b.0, c.0, a.0);
    crate::text::lemma_lex_order(b.1, c.1, a.1);
}

/// Order of keyed entries by key.
pub open spec fn entry_order<V>() -> spec_fn((KeyView, V), (KeyView, V)) -> bool {
    |a: (KeyView, V), b: (KeyView, V)| key_lt(a.0, b.0)
}

proof fn lemma_lower_pos<V>(r: Seq<(KeyView, V)>, k: KeyView, i: int)
    requires
        0 <= i <= r.len(),
        forall|j: int| 0 <= j < i ==> key_lt(#[trigger] r[j].0, k),
    ensures
        i <= lower_pos(r, k, i) <= r.len(),
        forall|j: int| 0 <= j < lower_pos(r, k, i) ==> key_lt(#[trigger] r[j].0, k),
        lower_pos(r, k, i) < r.len() ==> !key_lt(r[lower_pos(r, k, i)].0, k),
    decreases r.len() - i,
{
    if i < r.len() && key_lt(r[i].0, k) {
        lemma_lower_pos(r, k, i + 1);
    }
}

/// Ordering without repeats gives strictly increasing keys, and each of its
/// entries is an entry of the input.
pub proof fn lemma_sorted_unique_ordered<V>(all: Seq<(KeyView, V)>)
    ensures
        strictly_sorted(sorted_unique(all), entry_order()),
        forall|k: int|
            0 <= k < sorted_unique(all).len() ==> exists|j: int|
                0 <= j < all.len() && all[j] == #[trigger] sorted_unique(all)[k],
    decreases all.len(),
{
    if all.len() > 0 {
        let prev = all.drop_last();
        lemma_sorted_unique_ordered(prev);
        let r = sorted_unique(prev);
        let x = all.last();
        lemma_lower_pos(r, x.0, 0);
        let p = lower_pos(r, x.0, 0);
        let m = sorted_unique(all);
        assert(m == insert_unique(r, x));
        if 0 <= p < r.len() && r[p].0 == x.0 {
            assert(m == r);
            assert forall|k: int| 0 <= k < m.len() implies exists|j: int|
                0 <= j < all.len() && all[j] == #[trigger] m[k] by {
                let j = choose|j: int| 0 <= j < prev.len() && prev[j] == r[k];
                assert(all[j] == m[k]);
            }
        } else {
            assert(m == r.insert(p, x));
            if p < r.len() {
                lemma_key_order(r[p].0, x.0, x.0);
            }
            assert forall|i: int, j: int| 0 <= i < j < m.len() implies entry_order()(#[trigger] m[i], #[trigger] m[j]) by {
                if j < p {
                    assert(m[i] == r[i] && m[j] == r[j]);
                    assert(entry_order()(r[i], r[j]));
                } else if j == p {
                    assert(m[i] == r[i]);
                } else if i == p {
                    assert(m[j] == r[j - 1]);
                    if j - 1 > p {
                        assert(entry_order()(r[p], r[j - 1]));
                        lemma_key_order(x.0, r[p].0, r[j - 1].0);
                    }
                } else if i < p {
                    assert(m[i] == r[i] && m[j] == r[j - 1]);
                    if p < r.len() {
                        lemma_key_order(r[i].0, x.0, r[p].0);
                        if j - 1 > p {
                            assert(entry_order()(r[p], r[j - 1]));
                            lemma_key_order(r[i].0, r[p].0, r[j - 1].0);
                        }
                    }
                } else {
                    assert(m[i] == r[i - 1] && m[j] == r[j - 1]);
                    assert(entry_order()(r[i - 1], r[j - 1]));
                }
            }
            assert forall|k: int| 0 <= k < m.len() implies exists|j: int|
                0 <= j < all.len() && all[j] == #[trigger] m[k] by {
                if k == p {
                    assert(all[all.len() - 1] == m[k]);
                } else {
                    let kk = if k < p {
                        k
                    } else {
                        k - 1
                    };
                    assert(m[k] == r[kk]);
                    let j = choose|j: int| 0 <= j < prev.len() && prev[j] == r[kk];
                    assert(all[j] == m[k]);
                }
            }
        }
    }
}

/// A value with its sort key.
pub struct Keyed<T> {
    pub first: String,
    pub second: String,
    pub value: T,
}

/// Key and value view of each entry.
pub open spec fn keyed_views<T: View>(s: Seq<Keyed<T>>) -> Seq<(KeyView, T::V)> {
    s.map_values(|x: Keyed<T>| ((x.first@, x.second@), x.value@))
}

/// The values of keyed entries.
pub open spec fn values_of<V>(s: Seq<(KeyView, V)>) -> Seq<V> {
    s.map_values(|x: (KeyView, V)| x.1)
}

/// Returns `key_lt((a.first, a.second), (first, second))`.
fn key_less<T>(a: &Keyed<T>, first: &str, second: &str) -> (r: bool)
    ensures
        r == key_lt((a.first@, a.second@), (first@, second@)),
{
    text_less(a.first.as_str(), first) || (text_equal(a.first.as_str(), first) && text_less(
        a.second.as_str(),
        second,
    ))
}

/// Returns `key_lt((first, second), (a.first, a.second))`.
fn key_greater<T>(a: &Keyed<T>, first: &str, second: &str) -> (r: bool)
    ensures
        r == key_lt((first@, second@), (a.first@, a.second@)),
{
    text_less(first, a.first.as_str()) || (text_equal(a.first.as_str(), first) && text_less(
        second,
        a.second.as_str(),
    ))
}

/// Moves every entry of `items` into key order, keeping the first entry of
/// each key.
pub fn sort_unique<T: View>(items: Vec<Keyed<T>>) -> (r: Vec<Keyed<T>>)
    ensures
        keyed_views(r@) == sorted_unique(keyed_views(items@)),
{
    let ghost all = keyed_views(items@);
    let mut rest = items;
    let mut out: Vec<Keyed<T>> = Vec::new();
    let mut taken: usize = 0;
    let total = rest.len();
    while rest.len() > 0
        invariant
            taken + rest@.len() == total,
            total == all.len(),
            keyed_views(rest@) == all.skip(taken as int),
            keyed_views(out@) == sorted_unique(all.take(taken as int)),
        decreases rest@.len(),
    {
        let ghost before = rest@;
        let item = rest.remove(0);
        assert(keyed_views(rest@) =~= all.skip(taken + 1)) by {
            assert forall|j: int| 0 <= j < rest@.len() implies keyed_views(rest@)[j] == all.skip(taken + 1)[j] by {
                assert(rest@[j] == before[j + 1]);
                assert(keyed_views(before)[j + 1] == all.skip(taken as int)[j + 1]);
            }
        }
        assert(keyed_views(before)[0] == all[taken as int]);
        let ghost o = keyed_views(out@);
        let ghost x = ((item.first@, item.second@), item.value@);
        let mut p: usize = 0;
        while p < out.len() && key_less(&out[p], item.first.as_str(), item.second.as_str())
            invariant
                p <= out@.len(),
                o == keyed_views(out@),
                x == ((item.first@, item.second@), item.value@),
                lower_pos(o, x.0, p as int) == lower_pos(o, x.0, 0),
            decreases out@.len() - p,
        {
            p = p + 1;
        }
        let present = p < out.len() && text_equal(out[p].first.as_str(), item.first.as_str())
            && text_equal(out[p].second.as_str(), item.second.as_str());
        if !present {
            out.insert(p, item);
            assert(keyed_views(out@) =~= o.insert(p as int, x));
        }
        assert(all.take(taken + 1).drop_last() =~= all.take(taken as int));
        taken = taken + 1;
    }
    assert(all.take(total as int) =~= all);
    out
}

/// Moves every entry of `items` into key order; entries with equal keys keep
/// their order.
pub fn sort_stable<T: View>(items: Vec<Keyed<T>>) -> (r: Vec<Keyed<T>>)
    ensures
        keyed_views(r@) == sorted_stable(keyed_views(items@)),
{
    let ghost all = keyed_views(items@);
    let mut rest = items;
    let mut out: Vec<Keyed<T>> = Vec::new();
    let mut taken: usize = 0;
    let total = rest.len();
    while rest.len() > 0
        invariant
            taken + rest@.len() == total,
            total == all.len(),
            keyed_views(rest@) == all.skip(taken as int),
            keyed_views(out@) == sorted_stable(all.take(taken as int)),
        decreases rest@.len(),
    {
        let ghost before = rest@;
        let item = rest.remove(0);
        assert(keyed_views(rest@) =~= all.skip(taken + 1)) by {
            assert forall|j: int| 0 <= j < rest@.len() implies keyed_views(rest@)[j] == all.skip(taken + 1)[j] by {
                assert(rest@[j] == before[j + 1]);
                assert(keyed_views(before)[j + 1] == all.skip(taken as int)[j + 1]);
            }
        }
        assert(keyed_views(before)[0] == all[taken as int]);
        let ghost o = keyed_views(out@);
        let ghost x = ((item.first@, item.second@), item.value@);
        let mut p: usize = 0;
        while p < out.len() && !key_greater(&out[p], item.first.as_str(), item.second.as_str())
            invariant
                p <= out@.len(),
                o == keyed_views(out@),
                x == ((item.first@, item.second@), item.value@),
                upper_pos(o, x.0, p as int) == upper_pos(o, x.0, 0),
            decreases out@.len() - p,
        {
            p = p + 1;
        }
        out.insert(p, item);
        assert(keyed_views(out@) =~= o.insert(p as int, x));
        assert(all.take(taken + 1).drop_last() =~= all.take(taken as int));
        taken = taken + 1;
    }
    assert(all.take(total as int) =~= all);
    out
}

/// Moves the values out of keyed entries, in order.
pub fn into_values<T: View>(items: Vec<Keyed<T>>) -> (r: Vec<T>)
    ensures
        r@.map_values(|v: T| v@) == values_of(keyed_views(items@)),
{
    let ghost all = keyed_views(items@);
    let mut rest = items;
    let mut out: Vec<T> = Vec::new();
    let total = rest.len();
    while rest.len() > 0
        invariant
            out@.len() + rest@.len() == total,
            total == all.len(),
            keyed_views(rest@) == all.skip(out@.len() as int),
            out@.map_values(|v: T| v@) == values_of(all.take(out@.len() as int)),
        decreases rest@.len(),
    {
        let ghost before = rest@;
        let ghost n: int = out@.len() as int;
        let item = rest.remove(0);
        assert(keyed_views(rest@) =~= all.skip(n + 1)) by {
            assert forall|j: int| 0 <= j < rest@.len() implies keyed_views(rest@)[j] == all.skip(n + 1)[j] by {
                assert(rest@[j] == before[j + 1]);
                assert(keyed_views(before)[j + 1] == all.skip(n)[j + 1]);
            }
        }
        assert(keyed_views(before)[0] == all[n]);
        let ghost done = out@;
        out.push(item.value);
        assert(all.take(n + 1) =~= all.take(n).push(all[n]));
        assert(out@.map_values(|v: T| v@) =~= done.map_values(|v: T| v@).push(item.value@));
        assert(values_of(all.take(n + 1)) =~= values_of(all.take(n)).push(all[n].1));
    }
    assert(all.take(total as int) =~= all);
    out
}

} // verus!
