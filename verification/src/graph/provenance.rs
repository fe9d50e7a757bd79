//! Provenance model for graph facts.

use vstd::prelude::*;

use crate::entity::EntityId;
use crate::text::{lex_lt, text_equal, text_less};

verus! {

/// Stable identifier of a graph fact producer.
#[derive(Debug, Clone, PartialEq, Eq, PartialOrd, Ord, Hash)]
pub struct ProducerId(String);

impl View for ProducerId {
    type V = Seq<char>;

    closed spec fn view(&self) -> Seq<char> {
        self.0@
    }
}

impl ProducerId {
    /// Creates a producer identifier from its canonical string representation.
    pub fn new(value: &str) -> (r: Self)
        ensures
            r@ == value@,
    {
        ProducerId(value.to_owned())
    }

    /// Returns the canonical string representation of the identifier.
    pub fn as_str(&self) -> (r: &str)
        ensures
            r@ == self@,
    {
        self.0.as_str()
    }

    /// Consumes the identifier and returns its canonical string.
    pub fn into_inner(self) -> (r: String)
        ensures
            r@ == self@,
    {
        self.0
    }

    /// Returns the canonical string (the `Display` form of the identifier).
    pub fn to_string(&self) -> (r: String)
        ensures
            r@ == self@,
    {
        self.0.clone()
    }

    /// Returns an identical copy of the identifier.
    pub fn duplicate(&self) -> (r: Self)
        ensures
            r@ == self@,
    {
        ProducerId(self.0.clone())
    }
}

impl From<String> for ProducerId {
    fn from(value: String) -> (r: Self)
        ensures
            r@ == value@,
    {
        ProducerId(value)
    }
}

impl vstd::std_specs::convert::FromSpecImpl<String> for ProducerId {
    open spec fn obeys_from_spec() -> bool {
        true
    }

    closed spec fn from_spec(v: String) -> Self {
        ProducerId(v)
    }
}

impl<'a> From<&'a str> for ProducerId {
    fn from(value: &'a str) -> (r: Self)
        ensures
            r@ == value@,
    {
        ProducerId(value.to_owned())
    }
}

impl<'a> vstd::std_specs::convert::FromSpecImpl<&'a str> for ProducerId {
    open spec fn obeys_from_spec() -> bool {
        false
    }

    closed spec fn from_spec(v: &'a str) -> Self {
        arbitrary()
    }
}

/// Origin of a graph fact.
#[derive(Debug, Clone, Copy, PartialEq, Eq, PartialOrd, Ord, Hash, Structural)]
pub enum FactOrigin {
    /// The fact comes from a source declaration.
    Declared,
    /// The fact was parsed from source content.
    Parsed,
    /// The fact was produced by semantic resolution.
    Resolved,
    /// The fact was inferred by analysis.
    Derived,
    /// The fact refers to external knowledge.
    External,
}

/// Confidence level assigned to a graph fact.
#[derive(Debug, Clone, Copy, PartialEq, Eq, PartialOrd, Ord, Hash, Structural)]
pub enum Confidence {
    /// Exact confidence.
    Exact,
    /// High confidence.
    High,
    /// Medium confidence.
    Medium,
    /// Low confidence.
    Low,
    /// Unknown confidence.
    Unknown,
}

/// Resolution state of a graph fact.
#[derive(Debug, Clone, Copy, PartialEq, Eq, PartialOrd, Ord, Hash, Structural)]
pub enum ResolutionState {
    /// Resolution does not apply to this fact.
    NotApplicable,
    /// The reference is unresolved.
    Unresolved,
    /// The reference is partially resolved.
    Partial,
    /// The reference has multiple possible targets.
    Ambiguous,
    /// The reference is resolved.
    Resolved,
}

/// Provenance attached to a graph fact.
#[derive(Debug, Clone, PartialEq, Eq, PartialOrd, Ord, Hash)]
pub struct Provenance {
    source: Option<EntityId>,
    producer: ProducerId,
    origin: FactOrigin,
    confidence: Confidence,
    resolution: ResolutionState,
}

/// Provenance view: source text, producer text, origin, confidence, resolution.
pub type ProvenanceView = (Option<Seq<char>>, Seq<char>, FactOrigin, Confidence, ResolutionState);

impl View for Provenance {
    type V = ProvenanceView;

    closed spec fn view(&self) -> ProvenanceView {
        (
            match self.source {
                Some(s) => Some(s@),
                None => None,
            },
            self.producer@,
            self.origin,
            self.confidence,
            self.resolution,
        )
    }
}

impl Provenance {
    /// Creates provenance for a graph fact.
    pub fn new(
        source: Option<EntityId>,
        producer: ProducerId,
        origin: FactOrigin,
        confidence: Confidence,
        resolution: ResolutionState,
    ) -> (r: Self)
        ensures
            r@ == (
                match source {
                    Some(s) => Some(s@),
                    None => None,
                },
                producer@,
                origin,
                confidence,
                resolution,
            ),
    {
        Provenance { source, producer, origin, confidence, resolution }
    }

    /// Returns an identical copy of the provenance record.
    pub fn duplicate(&self) -> (r: Self)
        ensures
            r@ == self@,
    {
        Provenance {
            source: match &self.source {
                Some(s) => Some(s.duplicate()),
                None => None,
            },
            producer: self.producer.duplicate(),
            origin: self.origin,
            confidence: self.confidence,
            resolution: self.resolution,
        }
    }

    /// Returns the optional source entity identifier.
    pub fn source(&self) -> (r: Option<&EntityId>)
        ensures
            match r {
                Some(s) => self@.0 == Some(s@),
                None => self@.0 is None,
            },
    {
        match &self.source {
            Some(s) => Some(s),
            None => None,
        }
    }

    /// Returns the fact producer identifier.
    pub fn producer(&self) -> (r: &ProducerId)
        ensures
            r@ == self@.1,
    {
        &self.producer
    }

    /// Returns the fact origin.
    pub fn origin(&self) -> (r: FactOrigin)
        ensures
            r == self@.2,
    {
        self.origin
    }

    /// Returns the confidence level.
    pub fn confidence(&self) -> (r: Confidence)
        ensures
            r == self@.3,
    {
        self.confidence
    }

    /// Returns the resolution state.
    pub fn resolution(&self) -> (r: ResolutionState)
        ensures
            r == self@.4,
    {
        self.resolution
    }
}

/// The views of provenance records.
pub open spec fn provenance_views(v: Seq<Provenance>) -> Seq<ProvenanceView> {
    v.map_values(|p: Provenance| p@)
}

/// Returns a copy of every provenance record of `v`.
pub fn duplicate_provenance(v: &[Provenance]) -> (r: Vec<Provenance>)
    ensures
        provenance_views(r@) == provenance_views(v@),
{
    let mut out: Vec<Provenance> = Vec::new();
    let mut i: usize = 0;
    while i < v.len()
        invariant
            i <= v@.len(),
            provenance_views(out@) == provenance_views(v@).take(i as int),
        decreases v@.len() - i,
    {
        let ghost before = out@;
        let d = v[i].duplicate();
        out.push(d);
        assert(provenance_views(v@)[i as int] == v@[i as int]@);
        assert(provenance_views(out@) == provenance_views(before).push(d@));
        assert(provenance_views(out@) =~= provenance_views(v@).take(i + 1));
        i = i + 1;
    }
    assert(provenance_views(v@).take(v@.len() as int) == provenance_views(v@));
    out
}


/// Position of an origin in declaration order.
pub open spec fn origin_rank(o: FactOrigin) -> nat {
    match o {
        FactOrigin::Declared => 0,
        FactOrigin::Parsed => 1,
        FactOrigin::Resolved => 2,
        FactOrigin::Derived => 3,
        FactOrigin::External => 4,
    }
}

/// Position of a confidence level in declaration order.
pub open spec fn confidence_rank(c: Confidence) -> nat {
    match c {
        Confidence::Exact => 0,
        Confidence::High => 1,
        Confidence::Medium => 2,
        Confidence::Low => 3,
        Confidence::Unknown => 4,
    }
}

/// Position of a resolution state in declaration order.
pub open spec fn resolution_rank(r: ResolutionState) -> nat {
    match r {
        ResolutionState::NotApplicable => 0,
        ResolutionState::Unresolved => 1,
        ResolutionState::Partial => 2,
        ResolutionState::Ambiguous => 3,
        ResolutionState::Resolved => 4,
    }
}

/// Order of optional sources: an absent source first, then by text.
pub open spec fn source_lt(a: Option<Seq<char>>, b: Option<Seq<char>>) -> bool {
    match (a, b) {
        (None, Some(_)) => true,
        (Some(x), Some(y)) => lex_lt(x, y),
        _ => false,
    }
}

/// Provenance order: by source, producer, origin, confidence and then
/// resolution state.
pub open spec fn provenance_lt(a: ProvenanceView, b: ProvenanceView) -> bool {
    ||| source_lt(a.0, b.0)
    ||| (a.0 == b.0 && lex_lt(a.1, b.1))
    ||| (a.0 == b.0 && a.1 == b.1 && origin_rank(a.2) < origin_rank(b.2))
    ||| (a.0 == b.0 && a.1 == b.1 && a.2 == b.2 && confidence_rank(a.3) < confidence_rank(b.3))
    ||| (a.0 == b.0 && a.1 == b.1 && a.2 == b.2 && a.3 == b.3 && resolution_rank(a.4) < resolution_rank(
        b.4,
    ))
}

/// First position of `r` from `i` on that does not sort before `x`.
pub open spec fn provenance_pos(r: Seq<ProvenanceView>, x: ProvenanceView, i: int) -> int
    decreases r.len() - i,
{
    if 0 <= i < r.len() && provenance_lt(r[i], x) {
        provenance_pos(r, x, i + 1)
    } else {
        i
    }
}

/// `x` inserted into the ordered `r` unless it is present.
pub open spec fn provenance_insert(r: Seq<ProvenanceView>, x: ProvenanceView) -> Seq<ProvenanceView> {
    let p = provenance_pos(r, x, 0);
    if 0 <= p < r.len() && r[p] == x {
        r
    } else {
        r.insert(p, x)
    }
}

/// Provenance records in provenance order without repeats.
pub open spec fn normalize(all: Seq<ProvenanceView>) -> Seq<ProvenanceView>
    decreases all.len(),
{
    if all.len() == 0 {
        Seq::empty()
    } else {
        provenance_insert(normalize(all.drop_last()), all.last())
    }
}

/// Provenance order is a strict total order.
pub proof fn lemma_provenance_order(a: ProvenanceView, b: ProvenanceView, c: ProvenanceView)
    ensures
        !provenance_lt(a, a),
        provenance_lt(a, b) && provenance_lt(b, c) ==> provenance_lt(a, c),
        a != b ==> provenance_lt(a, b) || provenance_lt(b, a),
{
    lemma_source_order(a.0, b.0, c.0);
    crate::text::lemma_lex_order(a.1, b.1, c.1);
}

proof fn lemma_source_order(a: Option<Seq<char>>, b: Option<Seq<char>>, c: Option<Seq<char>>)
    ensures
        !source_lt(a, a),
        source_lt(a, b) && source_lt(b, c) ==> source_lt(a, c),
        a != b ==> source_lt(a, b) || source_lt(b, a),
{
    match (a, b, c) {
        (Some(x), Some(y), Some(z)) => crate::text::lemma_lex_order(x, y, z),
        (Some(x), Some(y), None) => crate::text::lemma_lex_order(x, y, y),
        (Some(x), None, _) => crate::text::lemma_lex_order(x, x, x),
        (None, Some(y), _) => crate::text::lemma_lex_order(y, y, y),
        _ => {},
    }
}

/// The provenance order as a relation.
pub open spec fn provenance_order() -> spec_fn(ProvenanceView, ProvenanceView) -> bool {
    |a: ProvenanceView, b: ProvenanceView| provenance_lt(a, b)
}

/// Normalized provenance is strictly ordered and holds exactly the records
/// of its input.
pub proof fn lemma_normalize(all: Seq<ProvenanceView>)
    ensures
        crate::ordered::strictly_sorted(normalize(all), provenance_order()),
        forall|x: ProvenanceView| #[trigger] normalize(all).contains(x) <==> all.contains(x),
    decreases all.len(),
{
    if all.len() > 0 {
        let prev = all.drop_last();
        lemma_normalize(prev);
        let r = normalize(prev);
        let x = all.last();
        lemma_provenance_pos(r, x, 0);
        let p = provenance_pos(r, x, 0);
        let m = normalize(all);
        assert(m == provenance_insert(r, x));
        if 0 <= p < r.len() && r[p] == x {
            assert(m == r);
        } else {
            assert(m == r.insert(p, x));
            if p < r.len() {
                lemma_provenance_order(r[p], x, x);
            }
            assert forall|i: int, j: int| 0 <= i < j < m.len() implies provenance_lt(#[trigger] m[i], #[trigger] m[j]) by {
                if j < p {
                    assert(m[i] == r[i] && m[j] == r[j]);
                } else if j == p {
                    assert(m[i] == r[i]);
                } else if i == p {
                    assert(m[j] == r[j - 1]);
                    if j - 1 > p {
                        lemma_provenance_order(x, r[p], r[j - 1]);
                    }
                } else if i < p {
                    assert(m[i] == r[i] && m[j] == r[j - 1]);
                    if p < r.len() {
                        lemma_provenance_order(r[i], x, r[p]);
                        if j - 1 > p {
                            lemma_provenance_order(r[i], r[p], r[j - 1]);
                        }
                    }
                } else {
                    assert(m[i] == r[i - 1] && m[j] == r[j - 1]);
                }
            }
        }
        assert forall|y: ProvenanceView| #[trigger] m.contains(y) <==> all.contains(y) by {
            if m.contains(y) {
                let k = choose|k: int| 0 <= k < m.len() && m[k] == y;
                if m == r {
                    assert(r.contains(y));
                    let j = choose|j: int| 0 <= j < prev.len() && prev[j] == y;
                    assert(all[j] == y);
                } else if k == p {
                    assert(all[all.len() - 1] == y);
                } else {
                    let kk = if k < p {
                        k
                    } else {
                        k - 1
                    };
                    assert(r[kk] == y);
                    assert(r.contains(y));
                    let j = choose|j: int| 0 <= j < prev.len() && prev[j] == y;
                    assert(all[j] == y);
                }
            }
            if all.contains(y) {
                let j = choose|j: int| 0 <= j < all.len() && all[j] == y;
                if j == all.len() - 1 {
                    if m == r {
                        assert(r[p] == y);
                    } else {
                        assert(m[p] == y);
                    }
                } else {
                    assert(prev[j] == y);
                    assert(prev.contains(y));
                    assert(r.contains(y));
                    let k = choose|k: int| 0 <= k < r.len() && r[k] == y;
                    if m == r {
                        assert(m[k] == y);
                    } else if k < p {
                        assert(m[k] == y);
                    } else {
                        assert(m[k + 1] == y);
                    }
                }
            }
        }
    }
}

proof fn lemma_provenance_pos(r: Seq<ProvenanceView>, x: ProvenanceView, i: int)
    requires
        0 <= i <= r.len(),
        forall|k: int| 0 <= k < i ==> provenance_lt(#[trigger] r[k], x),
    ensures
        i <= provenance_pos(r, x, i) <= r.len(),
        forall|k: int| 0 <= k < provenance_pos(r, x, i) ==> provenance_lt(#[trigger] r[k], x),
        provenance_pos(r, x, i) < r.len() ==> !provenance_lt(r[provenance_pos(r, x, i)], x),
    decreases r.len() - i,
{
    if i < r.len() && provenance_lt(r[i], x) {
        lemma_provenance_pos(r, x, i + 1);
    }
}

/// Normalization ignores the order and repetition of records: two lists
/// with the same records normalize to the same list.
pub proof fn lemma_normalize_order_insensitive(a: Seq<ProvenanceView>, b: Seq<ProvenanceView>)
    requires
        forall|x: ProvenanceView| a.contains(x) <==> b.contains(x),
    ensures
        normalize(a) == normalize(b),
{
    lemma_normalize(a);
    lemma_normalize(b);
    assert forall|x: ProvenanceView| normalize(a).contains(x) <==> normalize(b).contains(x) by {
        assert(normalize(a).contains(x) <==> a.contains(x));
        assert(normalize(b).contains(x) <==> b.contains(x));
    }
    assert forall|x: ProvenanceView, y: ProvenanceView, z: ProvenanceView| #[trigger] provenance_order()(x, y)
        && #[trigger] provenance_order()(y, z) implies provenance_order()(x, z) by {
        lemma_provenance_order(x, y, z);
    }
    assert forall|x: ProvenanceView| !(#[trigger] provenance_order()(x, x)) by {
        lemma_provenance_order(x, x, x);
    }
    crate::ordered::lemma_strictly_sorted_equal(normalize(a), normalize(b), provenance_order());
}

pub(crate) fn origin_position(o: FactOrigin) -> (r: u8)
    ensures
        r as nat == origin_rank(o),
{
    match o {
        FactOrigin::Declared => 0,
        FactOrigin::Parsed => 1,
        FactOrigin::Resolved => 2,
        FactOrigin::Derived => 3,
        FactOrigin::External => 4,
    }
}

pub(crate) fn confidence_position(c: Confidence) -> (r: u8)
    ensures
        r as nat == confidence_rank(c),
{
    match c {
        Confidence::Exact => 0,
        Confidence::High => 1,
        Confidence::Medium => 2,
        Confidence::Low => 3,
        Confidence::Unknown => 4,
    }
}

pub(crate) fn resolution_position(r: ResolutionState) -> (p: u8)
    ensures
        p as nat == resolution_rank(r),
{
    match r {
        ResolutionState::NotApplicable => 0,
        ResolutionState::Unresolved => 1,
        ResolutionState::Partial => 2,
        ResolutionState::Ambiguous => 3,
        ResolutionState::Resolved => 4,
    }
}

/// Returns whether two optional sources hold the same text.
fn same_source(a: Option<&EntityId>, b: Option<&EntityId>) -> (r: bool)
    ensures
        r == (match a {
            Some(x) => Some(x@),
            None => None::<Seq<char>>,
        } == match b {
            Some(y) => Some(y@),
            None => None::<Seq<char>>,
        }),
{
    match (a, b) {
        (None, None) => true,
        (Some(x), Some(y)) => text_equal(x.as_str(), y.as_str()),
        _ => false,
    }
}

/// Returns whether two provenance records are equal.
pub fn provenance_equal(a: &Provenance, b: &Provenance) -> (r: bool)
    ensures
        r == (a@ == b@),
{
    same_source(a.source(), b.source()) && text_equal(a.producer().as_str(), b.producer().as_str())
        && a.origin() == b.origin() && a.confidence() == b.confidence() && a.resolution()
        == b.resolution()
}

/// Returns `provenance_lt(a@, b@)`.
fn provenance_less(a: &Provenance, b: &Provenance) -> (r: bool)
    ensures
        r == provenance_lt(a@, b@),
{
    let source_less = match (a.source(), b.source()) {
        (None, Some(_)) => true,
        (Some(x), Some(y)) => text_less(x.as_str(), y.as_str()),
        _ => false,
    };
    if source_less {
        return true;
    }
    if !same_source(a.source(), b.source()) {
        return false;
    }
    if text_less(a.producer().as_str(), b.producer().as_str()) {
        return true;
    }
    if !text_equal(a.producer().as_str(), b.producer().as_str()) {
        return false;
    }
    let (oa, ob) = (origin_position(a.origin()), origin_position(b.origin()));
    if oa != ob {
        return oa < ob;
    }
    let (ca, cb) = (confidence_position(a.confidence()), confidence_position(b.confidence()));
    if ca != cb {
        return ca < cb;
    }
    resolution_position(a.resolution()) < resolution_position(b.resolution())
}

/// Returns copies of the records of `v` in provenance order without repeats,
/// so that two lists with the same records in any order compare equal.
pub fn normalized_provenance(v: &[Provenance]) -> (r: Vec<Provenance>)
    ensures
        provenance_views(r@) == normalize(provenance_views(v@)),
{
    let ghost all = provenance_views(v@);
    let mut out: Vec<Provenance> = Vec::new();
    let mut i: usize = 0;
    while i < v.len()
        invariant
            i <= v@.len(),
            all == provenance_views(v@),
            provenance_views(out@) == normalize(all.take(i as int)),
        decreases v@.len() - i,
    {
        let x = &v[i];
        let ghost o = provenance_views(out@);
        let mut p: usize = 0;
        while p < out.len() && provenance_less(&out[p], x)
            invariant
                p <= out@.len(),
                o == provenance_views(out@),
                provenance_pos(o, x@, p as int) == provenance_pos(o, x@, 0),
            decreases out@.len() - p,
        {
            p = p + 1;
        }
        let present = p < out.len() && provenance_equal(&out[p], x);
        if !present {
            out.insert(p, x.duplicate());
            assert(provenance_views(out@) =~= o.insert(p as int, x@));
        }
        assert(all.take(i + 1).drop_last() =~= all.take(i as int));
        assert(all.take(i + 1).last() == x@);
        i = i + 1;
    }
    assert(all.take(i as int) =~= all);
    out
}
} // verus!
