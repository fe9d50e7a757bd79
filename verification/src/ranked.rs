//! Ordering of values by keys made of parts, each a number and a text,
//! compared part by part: the order that `derive(Ord)` gives a record whose
//! fields are enums, optional values, numbers and strings.

use vstd::prelude::*;

use crate::text::{lex_lt, text_equal, text_less};

verus! {

/// One part of a key: a number, then a text.
pub type Part = (usize, Seq<char>);

/// Part order: by number, then by text.
pub open spec fn part_lt(a: Part, b: Part) -> bool {
    a.0 < b.0 || (a.0 == b.0 && lex_lt(a.1, b.1))
}

/// Key order from part `i` on: the first differing part decides, and a key
/// that runs out first sorts first.
pub open spec fn parts_lt_from(a: Seq<Part>, b: Seq<Part>, i: int) -> bool
    decreases a.len() - i,
{
    if i < 0 || i >= a.len() {
        0 <= i < b.len()
    } else if i >= b.len() {
        false
    } else if a[i] == b[i] {
        parts_lt_from(a, b, i + 1)
    } else {
        part_lt(a[i], b[i])
    }
}

/// Key order.
pub open spec fn parts_lt(a: Seq<Part>, b: Seq<Part>) -> bool {
    parts_lt_from(a, b, 0)
}

/// Part order is a strict total order.
pub proof fn lemma_part_order(a: Part, b: Part, c: Part)
    ensures
        !part_lt(a, a),
        part_lt(a, b) && part_lt(b, c) ==> part_lt(a, c),
        a != b ==> part_lt(a, b) || part_lt(b, a),
{
    crate::text::lemma_lex_order(a.1, b.1, c.1);
    crate::text::lemma_lex_order(a.1, a.1, a.1);
}

proof fn lemma_parts_from_irreflexive(a: Seq<Part>, i: int)
    requires
        0 <= i,
    ensures
        !parts_lt_from(a, a, i),
    decreases a.len() - i,
{
    if i < a.len() {
        lemma_parts_from_irreflexive(a, i + 1);
    }
}

proof fn lemma_parts_from_transitive(a: Seq<Part>, b: Seq<Part>, c: Seq<Part>, i: int)
    requires
        0 <= i <= a.len(),
        i <= b.len(),
        i <= c.len(),
        parts_lt_from(a, b, i),
        parts_lt_from(b, c, i),
    ensures
        parts_lt_from(a, c, i),
    decreases a.len() - i,
{
    if i < a.len() {
        lemma_part_order(a[i], b[i], c[i]);
        if a[i] == b[i] && b[i] == c[i] {
            lemma_parts_from_transitive(a, b, c, i + 1);
        }
    }
}

proof fn lemma_parts_from_total(a: Seq<Part>, b: Seq<Part>, i: int)
    requires
        0 <= i <= a.len(),
        i <= b.len(),
        a.take(i) == b.take(i),
        a != b,
    ensures
        parts_lt_from(a, b, i) || parts_lt_from(b, a, i),
    decreases a.len() - i,
{
    if i == a.len() {
        if i == b.len() {
            assert(a =~= a.take(i));
            assert(b =~= b.take(i));
        }
    } else if i < b.len() {
        lemma_part_order(a[i], b[i], b[i]);
        if a[i] == b[i] {
            assert(a.take(i + 1) =~= a.take(i).push(a[i]));
            assert(b.take(i + 1) =~= b.take(i).push(b[i]));
            lemma_parts_from_total(a, b, i + 1);
        }
    }
}

/// Key order is a strict total order.
pub proof fn lemma_parts_order(a: Seq<Part>, b: Seq<Part>, c: Seq<Part>)
    ensures
        !parts_lt(a, a),
        parts_lt(a, b) && parts_lt(b, c) ==> parts_lt(a, c),
        a != b ==> parts_lt(a, b) || parts_lt(b, a),
{
    lemma_parts_from_irreflexive(a, 0);
    if parts_lt(a, b) && parts_lt(b, c) {
        lemma_parts_from_transitive(a, b, c, 0);
    }
    if a != b {
        assert(a.take(0) =~= b.take(0));
        lemma_parts_from_total(a, b, 0);
    }
}

/// First position of `r` from `i` on whose key does not sort before `k`.
pub open spec fn rank_lower<V>(r: Seq<(Seq<Part>, V)>, k: Seq<Part>, i: int) -> int
    decreases r.len() - i,
{
    if 0 <= i < r.len() && parts_lt(r[i].0, k) {
        rank_lower(r, k, i + 1)
    } else {
        i
    }
}

/// First position of `r` from `i` on whose key sorts after `k`.
pub open spec fn rank_upper<V>(r: Seq<(Seq<Part>, V)>, k: Seq<Part>, i: int) -> int
    decreases r.len() - i,
{
    if 0 <= i < r.len() && !parts_lt(k, r[i].0) {
        rank_upper(r, k, i + 1)
    } else {
        i
    }
}

/// `x` inserted into the key-ordered `r` unless its key is present.
pub open spec fn rank_insert_unique<V>(r: Seq<(Seq<Part>, V)>, x: (Seq<Part>, V)) -> Seq<(Seq<Part>, V)> {
    let p = rank_lower(r, x.0, 0);
    if 0 <= p < r.len() && r[p].0 == x.0 {
        r
    } else {
        r.insert(p, x)
    }
}

/// `all` ordered by key, keeping the first entry of each key.
pub open spec fn rank_sorted_unique<V>(all: Seq<(Seq<Part>, V)>) -> Seq<(Seq<Part>, V)>
    decreases all.len(),
{
    if all.len() == 0 {
        Seq::empty()
    } else {
        rank_insert_unique(rank_sorted_unique(all.drop_last()), all.last())
    }
}

/// `x` inserted into the key-ordered `r`, replacing the entry with its key.
pub open spec fn rank_insert_replace<V>(r: Seq<(Seq<Part>, V)>, x: (Seq<Part>, V)) -> Seq<(Seq<Part>, V)> {
    let p = rank_lower(r, x.0, 0);
    if 0 <= p < r.len() && r[p].0 == x.0 {
        r.update(p, x)
    } else {
        r.insert(p, x)
    }
}

/// `all` ordered by key, keeping the last entry of each key.
pub open spec fn rank_sorted_last<V>(all: Seq<(Seq<Part>, V)>) -> Seq<(Seq<Part>, V)>
    decreases all.len(),
{
    if all.len() == 0 {
        Seq::empty()
    } else {
        rank_insert_replace(rank_sorted_last(all.drop_last()), all.last())
    }
}

/// `all` ordered by key; entries with equal keys keep their order.
pub open spec fn rank_sorted<V>(all: Seq<(Seq<Part>, V)>) -> Seq<(Seq<Part>, V)>
    decreases all.len(),
{
    if all.len() == 0 {
        Seq::empty()
    } else {
        let r = rank_sorted(all.drop_last());
        r.insert(rank_upper(r, all.last().0, 0), all.last())
    }
}

/// The values of ranked entries.
pub open spec fn rank_values<V>(s: Seq<(Seq<Part>, V)>) -> Seq<V> {
    s.map_values(|x: (Seq<Part>, V)| x.1)
}

proof fn lemma_rank_lower_bounds<V>(r: Seq<(Seq<Part>, V)>, k: Seq<Part>, i: int)
    requires
        0 <= i <= r.len(),
    ensures
        i <= rank_lower(r, k, i) <= r.len(),
    decreases r.len() - i,
{
    if i < r.len() && parts_lt(r[i].0, k) {
        lemma_rank_lower_bounds(r, k, i + 1);
    }
}

proof fn lemma_rank_upper_bounds<V>(r: Seq<(Seq<Part>, V)>, k: Seq<Part>, i: int)
    requires
        0 <= i <= r.len(),
    ensures
        i <= rank_upper(r, k, i) <= r.len(),
    decreases r.len() - i,
{
    if i < r.len() && !parts_lt(k, r[i].0) {
        lemma_rank_upper_bounds(r, k, i + 1);
    }
}

/// Each entry of a ranked ordering is an entry of its input, and ordering
/// keeps every entry.
pub proof fn lemma_rank_sorted_members<V>(all: Seq<(Seq<Part>, V)>)
    ensures
        rank_sorted(all).len() == all.len(),
        forall|k: int|
            0 <= k < rank_sorted(all).len() ==> exists|j: int|
                0 <= j < all.len() && all[j] == #[trigger] rank_sorted(all)[k],
    decreases all.len(),
{
    if all.len() > 0 {
        let prev = all.drop_last();
        lemma_rank_sorted_members(prev);
        let r = rank_sorted(prev);
        lemma_rank_upper_bounds(r, all.last().0, 0);
        let p = rank_upper(r, all.last().0, 0);
        let t = rank_sorted(all);
        assert(t == r.insert(p, all.last()));
        assert forall|k: int| 0 <= k < t.len() implies exists|j: int| 0 <= j < all.len() && all[j] == #[trigger] t[k] by {
            if k < p {
                let j = choose|j: int| 0 <= j < prev.len() && prev[j] == r[k];
                assert(all[j] == t[k]);
            } else if k == p {
                assert(all[all.len() - 1] == t[k]);
            } else {
                let j = choose|j: int| 0 <= j < prev.len() && prev[j] == r[k - 1];
                assert(all[j] == t[k]);
            }
        }
    }
}

/// Each entry of a ranked ordering without repeats is an entry of its input.
pub proof fn lemma_rank_sorted_unique_members<V>(all: Seq<(Seq<Part>, V)>)
    ensures
        forall|k: int|
            0 <= k < rank_sorted_unique(all).len() ==> exists|j: int|
                0 <= j < all.len() && all[j] == #[trigger] rank_sorted_unique(all)[k],
    decreases all.len(),
{
    if all.len() > 0 {
        let prev = all.drop_last();
        lemma_rank_sorted_unique_members(prev);
        let r = rank_sorted_unique(prev);
        lemma_rank_lower_bounds(r, all.last().0, 0);
        let p = rank_lower(r, all.last().0, 0);
        let t = rank_sorted_unique(all);
        assert forall|k: int| 0 <= k < t.len() implies exists|j: int| 0 <= j < all.len() && all[j] == #[trigger] t[k] by {
            if t == r {
                let j = choose|j: int| 0 <= j < prev.len() && prev[j] == r[k];
                assert(all[j] == t[k]);
            } else {
                assert(t == r.insert(p, all.last()));
                if k < p {
                    let j = choose|j: int| 0 <= j < prev.len() && prev[j] == r[k];
                    assert(all[j] == t[k]);
                } else if k == p {
                    assert(all[all.len() - 1] == t[k]);
                } else {
                    let j = choose|j: int| 0 <= j < prev.len() && prev[j] == r[k - 1];
                    assert(all[j] == t[k]);
                }
            }
        }
    }
}

/// Keys never decrease along `r`.
pub open spec fn rank_ordered<V>(r: Seq<(Seq<Part>, V)>) -> bool {
    forall|i: int, j: int| #![trigger r[i], r[j]] 0 <= i < j < r.len() ==> !parts_lt(r[j].0, r[i].0)
}

/// Keys strictly increase along `r`.
pub open spec fn rank_strict<V>(r: Seq<(Seq<Part>, V)>) -> bool {
    forall|i: int, j: int| #![trigger r[i], r[j]] 0 <= i < j < r.len() ==> parts_lt(r[i].0, r[j].0)
}

/// Entry `j` of `all` is the last entry with its key.
pub open spec fn is_last_of_key<V>(all: Seq<(Seq<Part>, V)>, j: int) -> bool {
    &&& 0 <= j < all.len()
    &&& forall|m: int| #![trigger all[m]] j < m < all.len() ==> all[m].0 != all[j].0
}

proof fn lemma_rank_upper_props<V>(r: Seq<(Seq<Part>, V)>, k: Seq<Part>, i: int)
    requires
        0 <= i <= r.len(),
        forall|j: int| #![trigger r[j]] 0 <= j < i ==> !parts_lt(k, r[j].0),
    ensures
        i <= rank_upper(r, k, i) <= r.len(),
        forall|j: int| #![trigger r[j]] 0 <= j < rank_upper(r, k, i) ==> !parts_lt(k, r[j].0),
        rank_upper(r, k, i) < r.len() ==> parts_lt(k, r[rank_upper(r, k, i)].0),
    decreases r.len() - i,
{
    if i < r.len() && !parts_lt(k, r[i].0) {
        lemma_rank_upper_props(r, k, i + 1);
    }
}

proof fn lemma_rank_lower_props<V>(r: Seq<(Seq<Part>, V)>, k: Seq<Part>, i: int)
    requires
        0 <= i <= r.len(),
        forall|j: int| #![trigger r[j]] 0 <= j < i ==> parts_lt(r[j].0, k),
    ensures
        i <= rank_lower(r, k, i) <= r.len(),
        forall|j: int| #![trigger r[j]] 0 <= j < rank_lower(r, k, i) ==> parts_lt(r[j].0, k),
        rank_lower(r, k, i) < r.len() ==> !parts_lt(r[rank_lower(r, k, i)].0, k),
    decreases r.len() - i,
{
    if i < r.len() && parts_lt(r[i].0, k) {
        lemma_rank_lower_props(r, k, i + 1);
    }
}

/// A ranked ordering never decreases by key and holds exactly the entries
/// of its input.
pub proof fn lemma_rank_sorted_ordered<V>(all: Seq<(Seq<Part>, V)>)
    ensures
        rank_ordered(rank_sorted(all)),
        forall|x: (Seq<Part>, V)| rank_sorted(all).contains(x) <==> all.contains(x),
    decreases all.len(),
{
    if all.len() > 0 {
        let prev = all.drop_last();
        lemma_rank_sorted_ordered(prev);
        let r = rank_sorted(prev);
        let x = all.last();
        lemma_rank_upper_props(r, x.0, 0);
        let p = rank_upper(r, x.0, 0);
        let t = r.insert(p, x);
        assert(t == rank_sorted(all));
        assert forall|i: int, j: int| #![trigger t[i], t[j]] 0 <= i < j < t.len() implies !parts_lt(t[j].0, t[i].0) by {
            if i < p && j < p {
                assert(t[i] == r[i] && t[j] == r[j]);
            } else if i < p && j == p {
                assert(t[i] == r[i]);
            } else if i < p {
                assert(t[i] == r[i] && t[j] == r[j - 1]);
            } else if i == p {
                assert(t[j] == r[j - 1]);
                lemma_parts_order(r[j - 1].0, x.0, r[p].0);
                lemma_parts_order(r[p].0, r[p].0, r[p].0);
                if j - 1 > p {
                    assert(!parts_lt(r[j - 1].0, r[p].0));
                }
            } else {
                assert(t[i] == r[i - 1] && t[j] == r[j - 1]);
            }
        }
        assert forall|y: (Seq<Part>, V)| t.contains(y) <==> all.contains(y) by {
            if t.contains(y) {
                let k = choose|k: int| 0 <= k < t.len() && t[k] == y;
                if k == p {
                    assert(all[all.len() - 1] == y);
                } else {
                    let kk = if k < p { k } else { k - 1 };
                    assert(r[kk] == y);
                    assert(r.contains(y));
                    assert(rank_sorted(prev).contains(y));
                    assert(prev.contains(y));
                    let m = choose|m: int| 0 <= m < prev.len() && prev[m] == y;
                    assert(all[m] == y);
                }
            }
            if all.contains(y) {
                let m = choose|m: int| 0 <= m < all.len() && all[m] == y;
                if m == all.len() - 1 {
                    assert(t[p] == y);
                } else {
                    assert(prev[m] == y);
                    assert(prev.contains(y));
                    assert(rank_sorted(prev).contains(y));
                    let k = choose|k: int| 0 <= k < r.len() && r[k] == y;
                    if k < p {
                        assert(t[k] == y);
                    } else {
                        assert(t[k + 1] == y);
                    }
                }
            }
        }
    }
}

/// An ordering keeping the last entry of each key strictly increases by key
/// and holds exactly the entries that are the last of their key in its input.
pub proof fn lemma_rank_sorted_last_members<V>(all: Seq<(Seq<Part>, V)>)
    ensures
        rank_strict(rank_sorted_last(all)),
        forall|x: (Seq<Part>, V)|
            rank_sorted_last(all).contains(x) <==> exists|j: int| is_last_of_key(all, j) && all[j] == x,
    decreases all.len(),
{
    if all.len() > 0 {
        let prev = all.drop_last();
        lemma_rank_sorted_last_members(prev);
        let r = rank_sorted_last(prev);
        let x = all.last();
        let n = all.len() - 1;
        lemma_rank_lower_props(r, x.0, 0);
        let p = rank_lower(r, x.0, 0);
        let t = rank_sorted_last(all);
        let replaced = 0 <= p < r.len() && r[p].0 == x.0;
        if p < r.len() && !replaced {
            lemma_parts_order(r[p].0, x.0, x.0);
        }
        assert(rank_strict(t)) by {
            assert forall|i: int, j: int| #![trigger t[i], t[j]] 0 <= i < j < t.len() implies parts_lt(t[i].0, t[j].0) by {
                if replaced {
                    assert(t == r.update(p, x));
                    assert(r[i].0 == t[i].0 && r[j].0 == t[j].0);
                } else {
                    assert(t == r.insert(p, x));
                    if j < p {
                        assert(t[i] == r[i] && t[j] == r[j]);
                    } else if j == p {
                        assert(t[i] == r[i]);
                    } else if i < p {
                        assert(t[i] == r[i] && t[j] == r[j - 1]);
                        lemma_parts_order(r[i].0, x.0, r[p].0);
                        lemma_parts_order(r[i].0, r[p].0, r[j - 1].0);
                        if j - 1 > p {
                            assert(parts_lt(r[p].0, r[j - 1].0));
                        }
                    } else if i == p {
                        assert(t[j] == r[j - 1]);
                        lemma_parts_order(x.0, r[p].0, r[j - 1].0);
                        if j - 1 > p {
                            assert(parts_lt(r[p].0, r[j - 1].0));
                        }
                    } else {
                        assert(t[i] == r[i - 1] && t[j] == r[j - 1]);
                    }
                }
            }
        }
        // No entry of `r` but the one at `p` has the key of `x`.
        assert forall|k: int| #![trigger r[k]] 0 <= k < r.len() && k != p implies r[k].0 != x.0 by {
            lemma_parts_order(r[k].0, r[k].0, r[k].0);
            if k < p {
            } else {
                assert(parts_lt(r[p].0, r[k].0));
                if r[k].0 == x.0 {
                    lemma_parts_order(r[p].0, x.0, x.0);
                }
            }
        }
        assert forall|y: (Seq<Part>, V)|
            t.contains(y) <==> exists|j: int| is_last_of_key(all, j) && all[j] == y by {
            if t.contains(y) {
                let k = choose|k: int| 0 <= k < t.len() && t[k] == y;
                if (replaced && k == p) || (!replaced && k == p) {
                    if replaced {
                        assert(t == r.update(p, x));
                    } else {
                        assert(t == r.insert(p, x));
                    }
                    assert(y == x);
                    assert(is_last_of_key(all, n));
                } else {
                    let kk = if replaced || k < p { k } else { k - 1 };
                    if replaced {
                        assert(t == r.update(p, x));
                    } else {
                        assert(t == r.insert(p, x));
                    }
                    assert(r[kk] == y);
                    assert(kk != p || !replaced);
                    assert(y.0 != x.0);
                    assert(r.contains(y));
                    let j = choose|j: int| is_last_of_key(prev, j) && prev[j] == y;
                    assert(all[j] == y);
                    assert forall|m: int| #![trigger all[m]] j < m < all.len() implies all[m].0 != all[j].0 by {
                        if m < n {
                            assert(all[m] == prev[m]);
                        }
                    }
                    assert(is_last_of_key(all, j));
                }
            }
            if exists|j: int| is_last_of_key(all, j) && all[j] == y {
                let j = choose|j: int| is_last_of_key(all, j) && all[j] == y;
                if j == n {
                    if replaced {
                        assert(t == r.update(p, x));
                    } else {
                        assert(t == r.insert(p, x));
                    }
                    assert(t[p] == y);
                } else {
                    assert(all[n].0 != y.0);
                    assert(prev[j] == y);
                    assert(is_last_of_key(prev, j));
                    assert(r.contains(y));
                    let k = choose|k: int| 0 <= k < r.len() && r[k] == y;
                    if replaced {
                        assert(t == r.update(p, x));
                        assert(k != p);
                        assert(t[k] == y);
                    } else {
                        assert(t == r.insert(p, x));
                        if k < p {
                            assert(t[k] == y);
                        } else {
                            assert(t[k + 1] == y);
                        }
                    }
                }
            }
        }
    }
}

/// View of an executable key.
pub open spec fn key_view(k: Seq<(usize, String)>) -> Seq<Part> {
    k.map_values(|p: (usize, String)| (p.0, p.1@))
}

/// A value with its key.
pub struct Ranked<T> {
    pub key: Vec<(usize, String)>,
    pub value: T,
}

/// Key and value view of each entry.
pub open spec fn ranked_views<T: View>(s: Seq<Ranked<T>>) -> Seq<(Seq<Part>, T::V)> {
    s.map_values(|x: Ranked<T>| (key_view(x.key@), x.value@))
}

/// Appends the part `(number, text)` to a key.
pub fn push_part(key: &mut Vec<(usize, String)>, number: usize, text: &str)
    ensures
        key_view(final(key)@) == key_view(old(key)@).push((number, text@)),
{
    let ghost before = key@;
    key.push((number, text.to_owned()));
    assert(key_view(key@) =~= key_view(before).push((number, text@)));
}

/// Appends the part `(number, "")` to a key.
pub fn push_number(key: &mut Vec<(usize, String)>, number: usize)
    ensures
        key_view(final(key)@) == key_view(old(key)@).push((number, Seq::<char>::empty())),
{
    let ghost before = key@;
    key.push((number, String::new()));
    assert(key_view(key@) =~= key_view(before).push((number, Seq::<char>::empty())));
}

/// Returns `parts_lt(a, b)`.
pub fn parts_less(a: &Vec<(usize, String)>, b: &Vec<(usize, String)>) -> (r: bool)
    ensures
        r == parts_lt(key_view(a@), key_view(b@)),
{
    let ghost (av, bv) = (key_view(a@), key_view(b@));
    let mut i: usize = 0;
    while i < a.len() && i < b.len() && a[i].0 == b[i].0 && text_equal(a[i].1.as_str(), b[i].1.as_str())
        invariant
            i <= a@.len(),
            i <= b@.len(),
            av == key_view(a@),
            bv == key_view(b@),
            parts_lt_from(av, bv, i as int) == parts_lt_from(av, bv, 0),
        decreases a@.len() - i,
    {
        assert(av[i as int] == bv[i as int]);
        i = i + 1;
    }
    if i >= a.len() {
        i < b.len()
    } else if i >= b.len() {
        false
    } else {
        assert(av[i as int] != bv[i as int]);
        a[i].0 < b[i].0 || (a[i].0 == b[i].0 && text_less(a[i].1.as_str(), b[i].1.as_str()))
    }
}

/// Returns whether two keys are equal.
pub fn parts_equal(a: &Vec<(usize, String)>, b: &Vec<(usize, String)>) -> (r: bool)
    ensures
        r == (key_view(a@) == key_view(b@)),
{
    let ghost (av, bv) = (key_view(a@), key_view(b@));
    if a.len() != b.len() {
        assert(av.len() != bv.len());
        return false;
    }
    let mut i: usize = 0;
    while i < a.len()
        invariant
            i <= a@.len(),
            a@.len() == b@.len(),
            av == key_view(a@),
            bv == key_view(b@),
            forall|j: int| 0 <= j < i ==> av[j] == bv[j],
        decreases a@.len() - i,
    {
        if !(a[i].0 == b[i].0 && text_equal(a[i].1.as_str(), b[i].1.as_str())) {
            assert(av[i as int] != bv[i as int]);
            return false;
        }
        i = i + 1;
    }
    assert(av =~= bv);
    true
}

/// Inserts `item` into the key-ordered `out` unless its key is present.
pub fn insert_unique_ranked<T: View>(out: &mut Vec<Ranked<T>>, item: Ranked<T>)
    ensures
        ranked_views(final(out)@) == rank_insert_unique(
            ranked_views(old(out)@),
            (key_view(item.key@), item.value@),
        ),
{
    let ghost o = ranked_views(out@);
    let ghost x = (key_view(item.key@), item.value@);
    let mut p: usize = 0;
    while p < out.len() && parts_less(&out[p].key, &item.key)
        invariant
            p <= out@.len(),
            o == ranked_views(out@),
            x == (key_view(item.key@), item.value@),
            rank_lower(o, x.0, p as int) == rank_lower(o, x.0, 0),
        decreases out@.len() - p,
    {
        p = p + 1;
    }
    let present = p < out.len() && parts_equal(&out[p].key, &item.key);
    if !present {
        out.insert(p, item);
        assert(ranked_views(out@) =~= o.insert(p as int, x));
    }
}

/// Inserts `item` into the key-ordered `out`, replacing the entry with its
/// key.
pub fn insert_replace_ranked<T: View>(out: &mut Vec<Ranked<T>>, item: Ranked<T>)
    ensures
        ranked_views(final(out)@) == rank_insert_replace(
            ranked_views(old(out)@),
            (key_view(item.key@), item.value@),
        ),
{
    let ghost o = ranked_views(out@);
    let ghost x = (key_view(item.key@), item.value@);
    let mut p: usize = 0;
    while p < out.len() && parts_less(&out[p].key, &item.key)
        invariant
            p <= out@.len(),
            o == ranked_views(out@),
            x == (key_view(item.key@), item.value@),
            rank_lower(o, x.0, p as int) == rank_lower(o, x.0, 0),
        decreases out@.len() - p,
    {
        p = p + 1;
    }
    let present = p < out.len() && parts_equal(&out[p].key, &item.key);
    if present {
        let _old = out.remove(p);
        out.insert(p, item);
        assert(ranked_views(out@) =~= o.update(p as int, x));
    } else {
        out.insert(p, item);
        assert(ranked_views(out@) =~= o.insert(p as int, x));
    }
}

/// Inserts `item` into the key-ordered `out` after every entry with its key.
pub fn insert_stable_ranked<T: View>(out: &mut Vec<Ranked<T>>, item: Ranked<T>)
    ensures
        ranked_views(final(out)@) == ranked_views(old(out)@).insert(
            rank_upper(ranked_views(old(out)@), key_view(item.key@), 0),
            (key_view(item.key@), item.value@),
        ),
{
    let ghost o = ranked_views(out@);
    let ghost x = (key_view(item.key@), item.value@);
    let mut p: usize = 0;
    while p < out.len() && !parts_less(&item.key, &out[p].key)
        invariant
            p <= out@.len(),
            o == ranked_views(out@),
            x == (key_view(item.key@), item.value@),
            rank_upper(o, x.0, p as int) == rank_upper(o, x.0, 0),
        decreases out@.len() - p,
    {
        p = p + 1;
    }
    out.insert(p, item);
    assert(ranked_views(out@) =~= o.insert(p as int, x));
}

/// Moves every entry of `items` into key order, keeping the first entry of
/// each key.
pub fn rank_sort_unique<T: View>(items: Vec<Ranked<T>>) -> (r: Vec<Ranked<T>>)
    ensures
        ranked_views(r@) == rank_sorted_unique(ranked_views(items@)),
{
    let ghost all = ranked_views(items@);
    let mut rest = items;
    let mut out: Vec<Ranked<T>> = Vec::new();
    let mut taken: usize = 0;
    let total = rest.len();
    while rest.len() > 0
        invariant
            taken + rest@.len() == total,
            total == all.len(),
            ranked_views(rest@) == all.skip(taken as int),
            ranked_views(out@) == rank_sorted_unique(all.take(taken as int)),
        decreases rest@.len(),
    {
        let ghost before = rest@;
        let item = rest.remove(0);
        assert(ranked_views(rest@) =~= all.skip(taken + 1)) by {
            assert forall|j: int| 0 <= j < rest@.len() implies ranked_views(rest@)[j] == all.skip(taken + 1)[j] by {
                assert(rest@[j] == before[j + 1]);
                assert(ranked_views(before)[j + 1] == all.skip(taken as int)[j + 1]);
            }
        }
        assert(ranked_views(before)[0] == all[taken as int]);
        insert_unique_ranked(&mut out, item);
        assert(all.take(taken + 1).drop_last() =~= all.take(taken as int));
        taken = taken + 1;
    }
    assert(all.take(total as int) =~= all);
    out
}

/// Moves every entry of `items` into key order, keeping the last entry of
/// each key.
pub fn rank_sort_last<T: View>(items: Vec<Ranked<T>>) -> (r: Vec<Ranked<T>>)
    ensures
        ranked_views(r@) == rank_sorted_last(ranked_views(items@)),
{
    let ghost all = ranked_views(items@);
    let mut rest = items;
    let mut out: Vec<Ranked<T>> = Vec::new();
    let mut taken: usize = 0;
    let total = rest.len();
    while rest.len() > 0
        invariant
            taken + rest@.len() == total,
            total == all.len(),
            ranked_views(rest@) == all.skip(taken as int),
            ranked_views(out@) == rank_sorted_last(all.take(taken as int)),
        decreases rest@.len(),
    {
        let ghost before = rest@;
        let item = rest.remove(0);
        assert(ranked_views(rest@) =~= all.skip(taken + 1)) by {
            assert forall|j: int| 0 <= j < rest@.len() implies ranked_views(rest@)[j] == all.skip(taken + 1)[j] by {
                assert(rest@[j] == before[j + 1]);
                assert(ranked_views(before)[j + 1] == all.skip(taken as int)[j + 1]);
            }
        }
        assert(ranked_views(before)[0] == all[taken as int]);
        insert_replace_ranked(&mut out, item);
        assert(all.take(taken + 1).drop_last() =~= all.take(taken as int));
        taken = taken + 1;
    }
    assert(all.take(total as int) =~= all);
    out
}

/// Moves every entry of `items` into key order; entries with equal keys keep
/// their order.
pub fn rank_sort<T: View>(items: Vec<Ranked<T>>) -> (r: Vec<Ranked<T>>)
    ensures
        ranked_views(r@) == rank_sorted(ranked_views(items@)),
{
    let ghost all = ranked_views(items@);
    let mut rest = items;
    let mut out: Vec<Ranked<T>> = Vec::new();
    let mut taken: usize = 0;
    let total = rest.len();
    while rest.len() > 0
        invariant
            taken + rest@.len() == total,
            total == all.len(),
            ranked_views(rest@) == all.skip(taken as int),
            ranked_views(out@) == rank_sorted(all.take(taken as int)),
        decreases rest@.len(),
    {
        let ghost before = rest@;
        let item = rest.remove(0);
        assert(ranked_views(rest@) =~= all.skip(taken + 1)) by {
            assert forall|j: int| 0 <= j < rest@.len() implies ranked_views(rest@)[j] == all.skip(taken + 1)[j] by {
                assert(rest@[j] == before[j + 1]);
                assert(ranked_views(before)[j + 1] == all.skip(taken as int)[j + 1]);
            }
        }
        assert(ranked_views(before)[0] == all[taken as int]);
        insert_stable_ranked(&mut out, item);
        assert(all.take(taken + 1).drop_last() =~= all.take(taken as int));
        taken = taken + 1;
    }
    assert(all.take(total as int) =~= all);
    out
}

/// Moves the values out of ranked entries, in order.
pub fn ranked_values<T: View>(items: Vec<Ranked<T>>) -> (r: Vec<T>)
    ensures
        r@.map_values(|v: T| v@) == rank_values(ranked_views(items@)),
{
    let ghost all = ranked_views(items@);
    let mut rest = items;
    let mut out: Vec<T> = Vec::new();
    let total = rest.len();
    while rest.len() > 0
        invariant
            out@.len() + rest@.len() == total,
            total == all.len(),
            ranked_views(rest@) == all.skip(out@.len() as int),
            out@.map_values(|v: T| v@) == rank_values(all.take(out@.len() as int)),
        decreases rest@.len(),
    {
        let ghost before = rest@;
        let ghost n: int = out@.len() as int;
        let item = rest.remove(0);
        assert(ranked_views(rest@) =~= all.skip(n + 1)) by {
            assert forall|j: int| 0 <= j < rest@.len() implies ranked_views(rest@)[j] == all.skip(n + 1)[j] by {
                assert(rest@[j] == before[j + 1]);
                assert(ranked_views(before)[j + 1] == all.skip(n)[j + 1]);
            }
        }
        assert(ranked_views(before)[0] == all[n]);
        let ghost done = out@;
        out.push(item.value);
        assert(all.take(n + 1) =~= all.take(n).push(all[n]));
        assert(out@.map_values(|v: T| v@) =~= done.map_values(|v: T| v@).push(item.value@));
        assert(rank_values(all.take(n + 1)) =~= rank_values(all.take(n)).push(all[n].1));
    }
    assert(all.take(total as int) =~= all);
    out
}

} // verus!
