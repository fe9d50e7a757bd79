//! Differences between the semantic diagnostics of two build results.
//!
//! Diagnostics are matched by identity (code, kind, source node and
//! reference) and compared by their observable content. Each side is first
//! put in diagnostic order; where several diagnostics share an identity, the
//! last of them in that order stands for it.

use vstd::prelude::*;

use crate::entity::EntityId;
use crate::graph::build_diff::{DiagnosticChangeKind, DiagnosticDiffSummary, DiagnosticModifiedAspect};
use crate::graph::diagnostic::{DiagnosticView, SemanticDiagnostic, SemanticDiagnosticCode, SemanticDiagnosticKind};
use crate::graph::impact_analysis::{
    node_kind_key, num, opt_node_kind_key, opt_text_key, push_node_kind_key, push_opt_node_kind_key,
    push_opt_text_key, text_part,
};
use crate::graph::kind::NodeKind;
use crate::graph::provenance::{
    confidence_position, confidence_rank, normalize, normalized_provenance, origin_position, origin_rank,
    provenance_equal, provenance_views, resolution_position, resolution_rank, Provenance, ProvenanceView,
};
use crate::graph::reference_request::{id_views, same_ids, same_kinds};
use crate::graph::resolution::{ReferenceView, SemanticReference};
use crate::ordered::{lemma_strictly_sorted_equal, strictly_sorted};
use crate::ranked::{
    is_last_of_key, key_view, lemma_parts_order, lemma_rank_sorted_last_members, lemma_rank_sorted_ordered,
    parts_equal, parts_lt, push_number, push_part, rank_ordered, rank_sort, rank_sort_last, rank_sorted,
    rank_sorted_last, rank_strict, rank_values, ranked_values, ranked_views, Part, Ranked,
};
use crate::text::text_equal;

verus! {

/// Position of a diagnostic code in declaration order.
pub open spec fn code_rank(c: SemanticDiagnosticCode) -> usize {
    match c {
        SemanticDiagnosticCode::ReferenceMalformedFormat => 0,
        SemanticDiagnosticCode::ReferenceUnsupportedPrefix => 1,
        SemanticDiagnosticCode::ReferenceUnresolved => 2,
        SemanticDiagnosticCode::ReferenceAmbiguous => 3,
        SemanticDiagnosticCode::ReferenceIncompatibleKind => 4,
        SemanticDiagnosticCode::ReferenceInvalidOwner => 5,
        SemanticDiagnosticCode::DuplicateSemanticEdgeRequest => 6,
    }
}

/// Position of a diagnostic kind in declaration order.
pub open spec fn kind_rank(k: SemanticDiagnosticKind) -> usize {
    match k {
        SemanticDiagnosticKind::MalformedReferenceFormat => 0,
        SemanticDiagnosticKind::UnsupportedReferencePrefix => 1,
        SemanticDiagnosticKind::UnresolvedTarget => 2,
        SemanticDiagnosticKind::AmbiguousTarget => 3,
        SemanticDiagnosticKind::IncompatibleTargetKind => 4,
        SemanticDiagnosticKind::InvalidOwnerReference => 5,
        SemanticDiagnosticKind::DuplicateSemanticEdgeRequest => 6,
    }
}

fn code_position(c: SemanticDiagnosticCode) -> (r: usize)
    ensures
        r == code_rank(c),
{
    match c {
        SemanticDiagnosticCode::ReferenceMalformedFormat => 0,
        SemanticDiagnosticCode::ReferenceUnsupportedPrefix => 1,
        SemanticDiagnosticCode::ReferenceUnresolved => 2,
        SemanticDiagnosticCode::ReferenceAmbiguous => 3,
        SemanticDiagnosticCode::ReferenceIncompatibleKind => 4,
        SemanticDiagnosticCode::ReferenceInvalidOwner => 5,
        SemanticDiagnosticCode::DuplicateSemanticEdgeRequest => 6,
    }
}

fn kind_position(k: SemanticDiagnosticKind) -> (r: usize)
    ensures
        r == kind_rank(k),
{
    match k {
        SemanticDiagnosticKind::MalformedReferenceFormat => 0,
        SemanticDiagnosticKind::UnsupportedReferencePrefix => 1,
        SemanticDiagnosticKind::UnresolvedTarget => 2,
        SemanticDiagnosticKind::AmbiguousTarget => 3,
        SemanticDiagnosticKind::IncompatibleTargetKind => 4,
        SemanticDiagnosticKind::InvalidOwnerReference => 5,
        SemanticDiagnosticKind::DuplicateSemanticEdgeRequest => 6,
    }
}

/// Key of a reference: its variant, then its texts.
pub open spec fn reference_key(r: ReferenceView) -> Seq<Part> {
    num(r.0 as usize) + text_part(r.1) + text_part(r.2)
}

fn push_reference_key(key: &mut Vec<(usize, String)>, r: &SemanticReference)
    ensures
        key_view(final(key)@) == key_view(old(key)@) + reference_key(r@),
{
    let ghost k0 = key_view(key@);
    let empty = String::new();
    match r {
        SemanticReference::Raw(v) => {
            push_number(key, 0);
            push_part(key, 0, v.as_str());
            push_part(key, 0, empty.as_str());
        },
        SemanticReference::NodeId(v) => {
            push_number(key, 1);
            push_part(key, 0, v.as_str());
            push_part(key, 0, empty.as_str());
        },
        SemanticReference::Name(v) => {
            push_number(key, 2);
            push_part(key, 0, v.as_str());
            push_part(key, 0, empty.as_str());
        },
        SemanticReference::Child { owner, name } => {
            push_number(key, 3);
            push_part(key, 0, owner.as_str());
            push_part(key, 0, name.as_str());
        },
        SemanticReference::Owner { child } => {
            push_number(key, 4);
            push_part(key, 0, child.as_str());
            push_part(key, 0, empty.as_str());
        },
        SemanticReference::OwnedChild { owner, child } => {
            push_number(key, 5);
            push_part(key, 0, owner.as_str());
            push_part(key, 0, child.as_str());
        },
    }
    assert(key_view(key@) =~= k0 + reference_key(r@));
}

/// Diagnostic identity view: code, kind, source node, reference.
pub type DiagnosticIdentityView = (SemanticDiagnosticCode, SemanticDiagnosticKind, Option<Seq<char>>, ReferenceView);

/// The identity of a diagnostic.
pub open spec fn identity_of(d: DiagnosticView) -> DiagnosticIdentityView {
    (d.0, d.2, d.5, d.4)
}

/// Key of a diagnostic's identity: code, kind, source node, reference.
pub open spec fn identity_key(d: DiagnosticView) -> Seq<Part> {
    num(code_rank(d.0)) + num(kind_rank(d.2)) + opt_text_key(d.5) + reference_key(d.4)
}

/// Key of one provenance record: source, producer, origin, confidence,
/// resolution.
pub open spec fn provenance_key(p: ProvenanceView) -> Seq<Part> {
    opt_text_key(p.0) + text_part(p.1) + num(origin_rank(p.2) as usize) + num(confidence_rank(p.3) as usize) + num(
        resolution_rank(p.4) as usize,
    )
}

/// Keys of provenance records, each marked as present.
pub open spec fn provenance_items_key(s: Seq<ProvenanceView>) -> Seq<Part>
    decreases s.len(),
{
    if s.len() == 0 {
        Seq::empty()
    } else {
        provenance_items_key(s.drop_last()) + num(1) + provenance_key(s.last())
    }
}

/// Keys of node kinds, each marked as present.
pub open spec fn kinds_items_key(s: Seq<NodeKind>) -> Seq<Part>
    decreases s.len(),
{
    if s.len() == 0 {
        Seq::empty()
    } else {
        kinds_items_key(s.drop_last()) + num(1) + node_kind_key(s.last())
    }
}

/// Keys of identifiers, each marked as present.
pub open spec fn ids_items_key(s: Seq<Seq<char>>) -> Seq<Part>
    decreases s.len(),
{
    if s.len() == 0 {
        Seq::empty()
    } else {
        ids_items_key(s.drop_last()) + num(1) + text_part(s.last())
    }
}

/// Key of a diagnostic in diagnostic order: provenance records, source
/// node, code, kind, reference, expected kinds, actual kind, candidates and
/// message; lists end with an end mark, so that a shorter list sorts first.
pub open spec fn diagnostic_key(d: DiagnosticView) -> Seq<Part> {
    provenance_items_key(d.9) + num(0) + opt_text_key(d.5) + num(code_rank(d.0)) + num(kind_rank(d.2))
        + reference_key(d.4) + kinds_items_key(d.6) + num(0) + opt_node_kind_key(d.7) + ids_items_key(d.8) + num(
        0,
    ) + text_part(d.3)
}

fn push_source_key(key: &mut Vec<(usize, String)>, s: Option<&EntityId>)
    ensures
        key_view(final(key)@) == key_view(old(key)@) + opt_text_key(
            match s {
                Some(x) => Some(x@),
                None => None,
            },
        ),
{
    match s {
        Some(x) => push_opt_text_key(key, Some(x.as_str())),
        None => push_opt_text_key(key, None),
    }
}

fn push_provenance_key(key: &mut Vec<(usize, String)>, v: &[Provenance])
    ensures
        key_view(final(key)@) == key_view(old(key)@) + provenance_items_key(provenance_views(v@)) + num(0),
{
    let ghost k0 = key_view(key@);
    let ghost all = provenance_views(v@);
    let mut i: usize = 0;
    while i < v.len()
        invariant
            i <= v@.len(),
            all == provenance_views(v@),
            key_view(key@) == k0 + provenance_items_key(all.take(i as int)),
        decreases v@.len() - i,
    {
        let ghost before = key_view(key@);
        let p = &v[i];
        push_number(key, 1);
        push_source_key(key, p.source());
        push_part(key, 0, p.producer().as_str());
        push_number(key, origin_position(p.origin()) as usize);
        push_number(key, confidence_position(p.confidence()) as usize);
        push_number(key, resolution_position(p.resolution()) as usize);
        assert(key_view(key@) =~= before + num(1) + provenance_key(p@));
        assert(all.take(i + 1).drop_last() =~= all.take(i as int));
        assert(all.take(i + 1).last() == p@);
        i = i + 1;
    }
    assert(all.take(i as int) =~= all);
    push_number(key, 0);
    assert(key_view(key@) =~= k0 + provenance_items_key(all) + num(0));
}

fn push_kinds_key(key: &mut Vec<(usize, String)>, v: &[NodeKind])
    ensures
        key_view(final(key)@) == key_view(old(key)@) + kinds_items_key(v@) + num(0),
{
    let ghost k0 = key_view(key@);
    let mut i: usize = 0;
    while i < v.len()
        invariant
            i <= v@.len(),
            key_view(key@) == k0 + kinds_items_key(v@.take(i as int)),
        decreases v@.len() - i,
    {
        let ghost before = key_view(key@);
        push_number(key, 1);
        push_node_kind_key(key, v[i]);
        assert(key_view(key@) =~= before + num(1) + node_kind_key(v@[i as int]));
        assert(v@.take(i + 1).drop_last() =~= v@.take(i as int));
        i = i + 1;
    }
    assert(v@.take(i as int) =~= v@);
    push_number(key, 0);
    assert(key_view(key@) =~= k0 + kinds_items_key(v@) + num(0));
}

fn push_ids_key(key: &mut Vec<(usize, String)>, v: &[EntityId])
    ensures
        key_view(final(key)@) == key_view(old(key)@) + ids_items_key(id_views(v@)) + num(0),
{
    let ghost k0 = key_view(key@);
    let ghost all = id_views(v@);
    let mut i: usize = 0;
    while i < v.len()
        invariant
            i <= v@.len(),
            all == id_views(v@),
            key_view(key@) == k0 + ids_items_key(all.take(i as int)),
        decreases v@.len() - i,
    {
        let ghost before = key_view(key@);
        push_number(key, 1);
        push_part(key, 0, v[i].as_str());
        assert(key_view(key@) =~= before + num(1) + text_part(v@[i as int]@));
        assert(all.take(i + 1).drop_last() =~= all.take(i as int));
        assert(all.take(i + 1).last() == v@[i as int]@);
        i = i + 1;
    }
    assert(all.take(i as int) =~= all);
    push_number(key, 0);
    assert(key_view(key@) =~= k0 + ids_items_key(all) + num(0));
}

/// Returns the identity key of `d`.
fn identity_key_of(d: &SemanticDiagnostic) -> (r: Vec<(usize, String)>)
    ensures
        key_view(r@) == identity_key(d@),
{
    let mut key: Vec<(usize, String)> = Vec::new();
    push_number(&mut key, code_position(d.code()));
    push_number(&mut key, kind_position(d.kind()));
    push_source_key(&mut key, d.source_node());
    push_reference_key(&mut key, d.reference());
    assert(key_view(key@) =~= identity_key(d@));
    key
}

/// Returns the key of `d` in diagnostic order.
fn diagnostic_key_of(d: &SemanticDiagnostic) -> (r: Vec<(usize, String)>)
    ensures
        key_view(r@) == diagnostic_key(d@),
{
    let mut key: Vec<(usize, String)> = Vec::new();
    push_provenance_key(&mut key, d.provenance());
    push_source_key(&mut key, d.source_node());
    push_number(&mut key, code_position(d.code()));
    push_number(&mut key, kind_position(d.kind()));
    push_reference_key(&mut key, d.reference());
    push_kinds_key(&mut key, d.expected_kinds());
    push_opt_node_kind_key(&mut key, d.actual_kind());
    push_ids_key(&mut key, d.candidates());
    push_part(&mut key, 0, d.message());
    assert(key_view(key@) =~= diagnostic_key(d@));
    key
}


/// The views of diagnostics.
pub open spec fn diagnostic_views(s: Seq<SemanticDiagnostic>) -> Seq<DiagnosticView> {
    s.map_values(|d: SemanticDiagnostic| d@)
}

/// Diagnostics with their keys in diagnostic order.
pub open spec fn diagnostic_entries(all: Seq<DiagnosticView>) -> Seq<(Seq<Part>, DiagnosticView)> {
    all.map_values(|d: DiagnosticView| (diagnostic_key(d), d))
}

/// Diagnostics with their identity keys.
pub open spec fn identity_entries(all: Seq<DiagnosticView>) -> Seq<(Seq<Part>, DiagnosticView)> {
    all.map_values(|d: DiagnosticView| (identity_key(d), d))
}

/// Diagnostics indexed by identity, in identity order: `all` is put in
/// diagnostic order (equal keys keep their order), and of the diagnostics
/// that share an identity the last one in that order stands for it.
pub open spec fn diagnostic_index(all: Seq<DiagnosticView>) -> Seq<(Seq<Part>, DiagnosticView)> {
    rank_sorted_last(identity_entries(rank_values(rank_sorted(diagnostic_entries(all)))))
}

/// Returns the identity index of `v`.
fn diagnostic_index_of(v: &[SemanticDiagnostic]) -> (r: Vec<Ranked<SemanticDiagnostic>>)
    ensures
        ranked_views(r@) == diagnostic_index(diagnostic_views(v@)),
{
    let ghost all = diagnostic_views(v@);
    let mut entries: Vec<Ranked<SemanticDiagnostic>> = Vec::new();
    let mut i: usize = 0;
    while i < v.len()
        invariant
            i <= v@.len(),
            all == diagnostic_views(v@),
            ranked_views(entries@) == diagnostic_entries(all.take(i as int)),
        decreases v@.len() - i,
    {
        let ghost before = entries@;
        let entry = Ranked { key: diagnostic_key_of(&v[i]), value: v[i].duplicate() };
        entries.push(entry);
        assert(ranked_views(entries@) =~= ranked_views(before).push((diagnostic_key(v@[i as int]@), v@[i as int]@)));
        assert(ranked_views(entries@) =~= diagnostic_entries(all.take(i + 1)));
        i = i + 1;
    }
    assert(all.take(i as int) =~= all);
    let sorted = rank_sort(entries);
    let values = ranked_values(sorted);
    let ghost vs = rank_values(rank_sorted(diagnostic_entries(all)));
    assert(values@.map_values(|d: SemanticDiagnostic| d@) == vs);
    let mut keyed: Vec<Ranked<SemanticDiagnostic>> = Vec::new();
    let mut j: usize = 0;
    while j < values.len()
        invariant
            j <= values@.len(),
            values@.map_values(|d: SemanticDiagnostic| d@) == vs,
            ranked_views(keyed@) == identity_entries(vs.take(j as int)),
        decreases values@.len() - j,
    {
        let ghost before = keyed@;
        assert(values@.map_values(|d: SemanticDiagnostic| d@)[j as int] == values@[j as int]@);
        let entry = Ranked { key: identity_key_of(&values[j]), value: values[j].duplicate() };
        keyed.push(entry);
        assert(ranked_views(keyed@) =~= ranked_views(before).push((identity_key(vs[j as int]), vs[j as int])));
        assert(ranked_views(keyed@) =~= identity_entries(vs.take(j + 1)));
        j = j + 1;
    }
    assert(vs.take(j as int) =~= vs);
    rank_sort_last(keyed)
}

/// One aspect when `changed` holds, none otherwise.
pub open spec fn aspect_if(changed: bool, a: DiagnosticModifiedAspect) -> Seq<DiagnosticModifiedAspect> {
    if changed {
        seq![a]
    } else {
        Seq::empty()
    }
}

/// What differs between two diagnostics of one identity: severity, message,
/// expected kinds, actual kind, candidates, and provenance once put in
/// provenance order without repeats.
pub open spec fn modified_aspects(p: DiagnosticView, c: DiagnosticView) -> Seq<DiagnosticModifiedAspect> {
    aspect_if(p.1 != c.1, DiagnosticModifiedAspect::Severity) + aspect_if(p.3 != c.3, DiagnosticModifiedAspect::Message)
        + aspect_if(p.6 != c.6, DiagnosticModifiedAspect::ExpectedKinds) + aspect_if(
        p.7 != c.7,
        DiagnosticModifiedAspect::ActualKind,
    ) + aspect_if(p.8 != c.8, DiagnosticModifiedAspect::Candidates) + aspect_if(
        normalize(p.9) != normalize(c.9),
        DiagnosticModifiedAspect::Provenance,
    )
}

fn same_provenance(a: &[Provenance], b: &[Provenance]) -> (r: bool)
    ensures
        r == (provenance_views(a@) == provenance_views(b@)),
{
    if a.len() != b.len() {
        assert(provenance_views(a@).len() != provenance_views(b@).len());
        return false;
    }
    let mut i: usize = 0;
    while i < a.len()
        invariant
            i <= a@.len(),
            a@.len() == b@.len(),
            forall|j: int| 0 <= j < i ==> a@[j]@ == b@[j]@,
        decreases a@.len() - i,
    {
        if !provenance_equal(&a[i], &b[i]) {
            assert(provenance_views(a@)[i as int] != provenance_views(b@)[i as int]);
            return false;
        }
        i = i + 1;
    }
    assert(provenance_views(a@) =~= provenance_views(b@));
    true
}

fn modified_aspects_of(p: &SemanticDiagnostic, c: &SemanticDiagnostic) -> (r: Vec<DiagnosticModifiedAspect>)
    ensures
        r@ == modified_aspects(p@, c@),
{
    let mut out: Vec<DiagnosticModifiedAspect> = Vec::new();
    let ghost (pv, cv) = (p@, c@);
    if p.severity() != c.severity() {
        out.push(DiagnosticModifiedAspect::Severity);
    }
    assert(out@ =~= aspect_if(pv.1 != cv.1, DiagnosticModifiedAspect::Severity));
    let ghost s1 = out@;
    if !text_equal(p.message(), c.message()) {
        out.push(DiagnosticModifiedAspect::Message);
    }
    assert(out@ =~= s1 + aspect_if(pv.3 != cv.3, DiagnosticModifiedAspect::Message));
    let ghost s2 = out@;
    if !same_kinds(p.expected_kinds(), c.expected_kinds()) {
        out.push(DiagnosticModifiedAspect::ExpectedKinds);
    }
    assert(out@ =~= s2 + aspect_if(pv.6 != cv.6, DiagnosticModifiedAspect::ExpectedKinds));
    let ghost s3 = out@;
    let same_actual = match (p.actual_kind(), c.actual_kind()) {
        (Some(a), Some(b)) => a == b,
        (None, None) => true,
        _ => false,
    };
    if !same_actual {
        out.push(DiagnosticModifiedAspect::ActualKind);
    }
    assert(out@ =~= s3 + aspect_if(pv.7 != cv.7, DiagnosticModifiedAspect::ActualKind));
    let ghost s4 = out@;
    if !same_ids(p.candidates(), c.candidates()) {
        out.push(DiagnosticModifiedAspect::Candidates);
    }
    assert(out@ =~= s4 + aspect_if(pv.8 != cv.8, DiagnosticModifiedAspect::Candidates));
    let ghost s5 = out@;
    let np = normalized_provenance(p.provenance());
    let nc = normalized_provenance(c.provenance());
    if !same_provenance(np.as_slice(), nc.as_slice()) {
        out.push(DiagnosticModifiedAspect::Provenance);
    }
    assert(out@ =~= s5 + aspect_if(normalize(pv.9) != normalize(cv.9), DiagnosticModifiedAspect::Provenance));
    out
}

/// Position of the first entry of `r` from `i` on whose key is `k`, or the
/// length of `r` when there is none.
pub open spec fn find_key<V>(r: Seq<(Seq<Part>, V)>, k: Seq<Part>, i: int) -> int
    decreases r.len() - i,
{
    if i < 0 || i >= r.len() {
        r.len() as int
    } else if r[i].0 == k {
        i
    } else {
        find_key(r, k, i + 1)
    }
}

proof fn lemma_find_key_bounds<V>(r: Seq<(Seq<Part>, V)>, k: Seq<Part>, i: int)
    requires
        0 <= i <= r.len(),
    ensures
        i <= find_key(r, k, i) <= r.len(),
        find_key(r, k, i) < r.len() ==> r[find_key(r, k, i)].0 == k,
    decreases r.len() - i,
{
    if i < r.len() && r[i].0 != k {
        lemma_find_key_bounds(r, k, i + 1);
    }
}

fn find_entry(r: &Vec<Ranked<SemanticDiagnostic>>, k: &Vec<(usize, String)>) -> (p: usize)
    ensures
        p == find_key(ranked_views(r@), key_view(k@), 0),
        p <= r@.len(),
{
    let ghost rv = ranked_views(r@);
    let mut i: usize = 0;
    while i < r.len()
        invariant
            i <= r@.len(),
            rv == ranked_views(r@),
            find_key(rv, key_view(k@), i as int) == find_key(rv, key_view(k@), 0),
        decreases r@.len() - i,
    {
        if parts_equal(&r[i].key, k) {
            return i;
        }
        i = i + 1;
    }
    i
}

/// Diagnostic change view: identity, change kind, previous and current
/// diagnostics, modified aspects.
pub type DiagnosticChangeView = (
    DiagnosticIdentityView,
    DiagnosticChangeKind,
    Option<DiagnosticView>,
    Option<DiagnosticView>,
    Seq<DiagnosticModifiedAspect>,
);

/// The change of a diagnostic present only in the current result.
pub open spec fn added_change(d: DiagnosticView) -> DiagnosticChangeView {
    (identity_of(d), DiagnosticChangeKind::Added, None, Some(d), Seq::empty())
}

/// The change of a diagnostic present only in the previous result.
pub open spec fn removed_change(d: DiagnosticView) -> DiagnosticChangeView {
    (identity_of(d), DiagnosticChangeKind::Removed, Some(d), None, Seq::empty())
}

/// The change of a diagnostic whose content differs between the results.
pub open spec fn modified_change(p: DiagnosticView, c: DiagnosticView) -> DiagnosticChangeView {
    (identity_of(p), DiagnosticChangeKind::Modified, Some(p), Some(c), modified_aspects(p, c))
}

/// Entries of the previous index whose identity the current index lacks.
pub open spec fn removed_changes(
    prev: Seq<(Seq<Part>, DiagnosticView)>,
    cur: Seq<(Seq<Part>, DiagnosticView)>,
) -> Seq<DiagnosticChangeView>
    decreases prev.len(),
{
    if prev.len() == 0 {
        Seq::empty()
    } else {
        let rest = removed_changes(prev.drop_last(), cur);
        if find_key(cur, prev.last().0, 0) < cur.len() {
            rest
        } else {
            rest.push(removed_change(prev.last().1))
        }
    }
}

/// Entries of the previous index whose identity the current index holds with
/// different content.
pub open spec fn modified_changes(
    prev: Seq<(Seq<Part>, DiagnosticView)>,
    cur: Seq<(Seq<Part>, DiagnosticView)>,
) -> Seq<DiagnosticChangeView>
    decreases prev.len(),
{
    if prev.len() == 0 {
        Seq::empty()
    } else {
        let rest = modified_changes(prev.drop_last(), cur);
        let p = find_key(cur, prev.last().0, 0);
        if 0 <= p < cur.len() && modified_aspects(prev.last().1, cur[p].1).len() > 0 {
            rest.push(modified_change(prev.last().1, cur[p].1))
        } else {
            rest
        }
    }
}

/// Entries of the current index whose identity the previous index lacks.
pub open spec fn added_changes(
    prev: Seq<(Seq<Part>, DiagnosticView)>,
    cur: Seq<(Seq<Part>, DiagnosticView)>,
) -> Seq<DiagnosticChangeView>
    decreases cur.len(),
{
    if cur.len() == 0 {
        Seq::empty()
    } else {
        let rest = added_changes(prev, cur.drop_last());
        if find_key(prev, cur.last().0, 0) < prev.len() {
            rest
        } else {
            rest.push(added_change(cur.last().1))
        }
    }
}

/// Stable semantic diagnostic identity: typed code, problem kind, optional
/// source node and reference context. Severity, message, expected kinds,
/// actual kind, candidates and provenance are content.
#[derive(Debug, Clone, PartialEq, Eq, PartialOrd, Ord)]
pub struct DiagnosticIdentity {
    code: SemanticDiagnosticCode,
    kind: SemanticDiagnosticKind,
    source_node: Option<EntityId>,
    reference: SemanticReference,
}

impl View for DiagnosticIdentity {
    type V = DiagnosticIdentityView;

    closed spec fn view(&self) -> DiagnosticIdentityView {
        (
            self.code,
            self.kind,
            match self.source_node {
                Some(s) => Some(s@),
                None => None,
            },
            self.reference@,
        )
    }
}

impl DiagnosticIdentity {
    fn from_diagnostic(d: &SemanticDiagnostic) -> (r: Self)
        ensures
            r@ == identity_of(d@),
    {
        DiagnosticIdentity {
            code: d.code(),
            kind: d.kind(),
            source_node: match d.source_node() {
                Some(s) => Some(s.duplicate()),
                None => None,
            },
            reference: d.reference().duplicate(),
        }
    }

    /// Returns the diagnostic code.
    pub fn code(&self) -> (r: SemanticDiagnosticCode)
        ensures
            r == self@.0,
    {
        self.code
    }

    /// Returns the diagnostic problem kind.
    pub fn kind(&self) -> (r: SemanticDiagnosticKind)
        ensures
            r == self@.1,
    {
        self.kind
    }

    /// Returns the optional source node identity.
    pub fn source_node(&self) -> (r: Option<&EntityId>)
        ensures
            match r {
                Some(s) => self@.2 == Some(s@),
                None => self@.2 is None,
            },
    {
        match &self.source_node {
            Some(s) => Some(s),
            None => None,
        }
    }

    /// Returns the semantic reference context.
    pub fn reference(&self) -> (r: &SemanticReference)
        ensures
            r@ == self@.3,
    {
        &self.reference
    }
}

/// Directional semantic diagnostic change.
#[derive(Debug, Clone, PartialEq, Eq)]
pub struct DiagnosticChange {
    identity: DiagnosticIdentity,
    kind: DiagnosticChangeKind,
    previous: Option<SemanticDiagnostic>,
    current: Option<SemanticDiagnostic>,
    modified_aspects: Vec<DiagnosticModifiedAspect>,
}

impl View for DiagnosticChange {
    type V = DiagnosticChangeView;

    closed spec fn view(&self) -> DiagnosticChangeView {
        (
            self.identity@,
            self.kind,
            match self.previous {
                Some(d) => Some(d@),
                None => None,
            },
            match self.current {
                Some(d) => Some(d@),
                None => None,
            },
            self.modified_aspects@,
        )
    }
}

/// The views of diagnostic changes.
pub open spec fn change_views(s: Seq<DiagnosticChange>) -> Seq<DiagnosticChangeView> {
    s.map_values(|c: DiagnosticChange| c@)
}

impl DiagnosticChange {
    /// Returns the diagnostic identity.
    pub fn identity(&self) -> (r: &DiagnosticIdentity)
        ensures
            r@ == self@.0,
    {
        &self.identity
    }

    /// Returns the change category.
    pub fn kind(&self) -> (r: DiagnosticChangeKind)
        ensures
            r == self@.1,
    {
        self.kind
    }

    /// Returns the previous diagnostic for removed and modified changes.
    pub fn previous(&self) -> (r: Option<&SemanticDiagnostic>)
        ensures
            match r {
                Some(d) => self@.2 == Some(d@),
                None => self@.2 is None,
            },
    {
        match &self.previous {
            Some(d) => Some(d),
            None => None,
        }
    }

    /// Returns the current diagnostic for added and modified changes.
    pub fn current(&self) -> (r: Option<&SemanticDiagnostic>)
        ensures
            match r {
                Some(d) => self@.3 == Some(d@),
                None => self@.3 is None,
            },
    {
        match &self.current {
            Some(d) => Some(d),
            None => None,
        }
    }

    /// Returns the typed modified aspects.
    pub fn modified_aspects(&self) -> (r: &[DiagnosticModifiedAspect])
        ensures
            r@ == self@.4,
    {
        self.modified_aspects.as_slice()
    }
}

/// Diagnostic diff view: added, removed and modified changes, counters.
pub type DiagnosticDiffView = (
    Seq<DiagnosticChangeView>,
    Seq<DiagnosticChangeView>,
    Seq<DiagnosticChangeView>,
    (usize, usize, usize),
);

/// Deterministic semantic diagnostic diff.
#[derive(Debug, Clone, PartialEq, Eq)]
pub struct DiagnosticDiff {
    added: Vec<DiagnosticChange>,
    removed: Vec<DiagnosticChange>,
    modified: Vec<DiagnosticChange>,
    summary: DiagnosticDiffSummary,
}

impl View for DiagnosticDiff {
    type V = DiagnosticDiffView;

    closed spec fn view(&self) -> DiagnosticDiffView {
        (change_views(self.added@), change_views(self.removed@), change_views(self.modified@), self.summary@)
    }
}

/// The diff of the diagnostics `previous` and `current`: each list is
/// indexed by identity, then removed and modified changes follow the
/// previous index and added changes the current one.
pub open spec fn diagnostic_diff(previous: Seq<DiagnosticView>, current: Seq<DiagnosticView>) -> DiagnosticDiffView {
    let p = diagnostic_index(previous);
    let c = diagnostic_index(current);
    let added = added_changes(p, c);
    let removed = removed_changes(p, c);
    let modified = modified_changes(p, c);
    (added, removed, modified, (added.len() as usize, removed.len() as usize, modified.len() as usize))
}

impl DiagnosticDiff {
    /// Compares diagnostics in the `previous -> current` direction.
    pub fn between(previous: &[SemanticDiagnostic], current: &[SemanticDiagnostic]) -> (r: Self)
        ensures
            r@ == diagnostic_diff(diagnostic_views(previous@), diagnostic_views(current@)),
    {
        let prev = diagnostic_index_of(previous);
        let cur = diagnostic_index_of(current);
        let ghost pv = ranked_views(prev@);
        let ghost cv = ranked_views(cur@);
        let mut added: Vec<DiagnosticChange> = Vec::new();
        let mut removed: Vec<DiagnosticChange> = Vec::new();
        let mut modified: Vec<DiagnosticChange> = Vec::new();
        let mut i: usize = 0;
        while i < prev.len()
            invariant
                i <= prev@.len(),
                pv == ranked_views(prev@),
                cv == ranked_views(cur@),
                change_views(removed@) == removed_changes(pv.take(i as int), cv),
                change_views(modified@) == modified_changes(pv.take(i as int), cv),
                removed@.len() <= i,
                modified@.len() <= i,
            decreases prev@.len() - i,
        {
            let entry = &prev[i];
            let ghost e = pv[i as int];
            assert(e == (key_view(entry.key@), entry.value@));
            assert(pv.take(i + 1).drop_last() =~= pv.take(i as int));
            assert(pv.take(i + 1).last() == e);
            let p = find_entry(&cur, &entry.key);
            proof {
                lemma_find_key_bounds(cv, e.0, 0);
            }
            if p < cur.len() {
                let aspects = modified_aspects_of(&entry.value, &cur[p].value);
                if aspects.len() > 0 {
                    let ghost before = modified@;
                    let change = DiagnosticChange {
                        identity: DiagnosticIdentity::from_diagnostic(&entry.value),
                        kind: DiagnosticChangeKind::Modified,
                        previous: Some(entry.value.duplicate()),
                        current: Some(cur[p].value.duplicate()),
                        modified_aspects: aspects,
                    };
                    modified.push(change);
                    assert(change_views(modified@) =~= change_views(before).push(modified_change(e.1, cv[p as int].1)));
                }
            } else {
                let ghost before = removed@;
                let change = DiagnosticChange {
                    identity: DiagnosticIdentity::from_diagnostic(&entry.value),
                    kind: DiagnosticChangeKind::Removed,
                    previous: Some(entry.value.duplicate()),
                    current: None,
                    modified_aspects: Vec::new(),
                };
                removed.push(change);
                assert(change_views(removed@) =~= change_views(before).push(removed_change(e.1)));
            }
            i = i + 1;
        }
        assert(pv.take(i as int) =~= pv);
        let mut j: usize = 0;
        while j < cur.len()
            invariant
                j <= cur@.len(),
                pv == ranked_views(prev@),
                cv == ranked_views(cur@),
                change_views(added@) == added_changes(pv, cv.take(j as int)),
                added@.len() <= j,
            decreases cur@.len() - j,
        {
            let entry = &cur[j];
            let ghost e = cv[j as int];
            assert(e == (key_view(entry.key@), entry.value@));
            assert(cv.take(j + 1).drop_last() =~= cv.take(j as int));
            assert(cv.take(j + 1).last() == e);
            let p = find_entry(&prev, &entry.key);
            if p >= prev.len() {
                let ghost before = added@;
                let change = DiagnosticChange {
                    identity: DiagnosticIdentity::from_diagnostic(&entry.value),
                    kind: DiagnosticChangeKind::Added,
                    previous: None,
                    current: Some(entry.value.duplicate()),
                    modified_aspects: Vec::new(),
                };
                added.push(change);
                assert(change_views(added@) =~= change_views(before).push(added_change(e.1)));
            }
            j = j + 1;
        }
        assert(cv.take(j as int) =~= cv);
        let summary = DiagnosticDiffSummary::new(added.len(), removed.len(), modified.len());
        DiagnosticDiff { added, removed, modified, summary }
    }

    /// Returns diagnostics present only in the current build result.
    pub fn added(&self) -> (r: &[DiagnosticChange])
        ensures
            change_views(r@) == self@.0,
    {
        self.added.as_slice()
    }

    /// Returns diagnostics present only in the previous build result.
    pub fn removed(&self) -> (r: &[DiagnosticChange])
        ensures
            change_views(r@) == self@.1,
    {
        self.removed.as_slice()
    }

    /// Returns diagnostics with the same identity and changed observable
    /// content.
    pub fn modified(&self) -> (r: &[DiagnosticChange])
        ensures
            change_views(r@) == self@.2,
    {
        self.modified.as_slice()
    }

    /// Returns compact diagnostic diff counters.
    pub fn summary(&self) -> (r: DiagnosticDiffSummary)
        ensures
            r@ == self@.3,
    {
        self.summary
    }
}


/// `d` is a diagnostic of `all` that no diagnostic of `all` with its
/// identity follows in diagnostic order.
pub open spec fn is_identity_maximum(all: Seq<DiagnosticView>, d: DiagnosticView) -> bool {
    &&& all.contains(d)
    &&& forall|e: DiagnosticView|
        #![trigger all.contains(e)]
        all.contains(e) && identity_key(e) == identity_key(d) ==> !parts_lt(diagnostic_key(d), diagnostic_key(e))
}

/// No two different diagnostics of `all` share a key in diagnostic order.
pub open spec fn distinct_diagnostic_keys(all: Seq<DiagnosticView>) -> bool {
    forall|d: DiagnosticView, e: DiagnosticView|
        #![trigger all.contains(d), all.contains(e)]
        all.contains(d) && all.contains(e) && diagnostic_key(d) == diagnostic_key(e) ==> d == e
}

proof fn lemma_last_of_key_exists<V>(f: Seq<(Seq<Part>, V)>, m: int, k: Seq<Part>)
    requires
        0 <= m < f.len(),
        f[m].0 == k,
    ensures
        exists|j: int| #![trigger f[j]] m <= j && is_last_of_key(f, j) && f[j].0 == k,
    decreases f.len() - m,
{
    if forall|q: int| #![trigger f[q]] m < q < f.len() ==> f[q].0 != k {
        assert(is_last_of_key(f, m));
    } else {
        let q = choose|q: int| #![trigger f[q]] m < q < f.len() && f[q].0 == k;
        lemma_last_of_key_exists(f, q, k);
    }
}

/// The identity index of diagnostics whose keys in diagnostic order are
/// distinct strictly increases by identity key and holds, for each identity,
/// exactly the diagnostic that no other of that identity follows in
/// diagnostic order.
pub proof fn lemma_diagnostic_index_members(all: Seq<DiagnosticView>)
    requires
        distinct_diagnostic_keys(all),
    ensures
        rank_strict(diagnostic_index(all)),
        forall|x: (Seq<Part>, DiagnosticView)|
            #![trigger diagnostic_index(all).contains(x)]
            diagnostic_index(all).contains(x) <==> (x.0 == identity_key(x.1) && is_identity_maximum(all, x.1)),
{
    let ee = diagnostic_entries(all);
    let r = rank_sorted(ee);
    lemma_rank_sorted_ordered(ee);
    let s = rank_values(r);
    let f = identity_entries(s);
    lemma_rank_sorted_last_members(f);
    let ix = diagnostic_index(all);
    assert(ix == rank_sorted_last(f));
    assert forall|i: int| #![trigger r[i]] 0 <= i < r.len() implies r[i] == (diagnostic_key(r[i].1), r[i].1)
        && all.contains(r[i].1) by {
        assert(r.contains(r[i]));
        assert(ee.contains(r[i]));
        let m = choose|m: int| 0 <= m < ee.len() && ee[m] == r[i];
        assert(ee[m] == (diagnostic_key(all[m]), all[m]));
    }
    assert forall|d: DiagnosticView| #![trigger all.contains(d)] all.contains(d) implies exists|i: int|
        #![trigger s[i]]
        0 <= i < s.len() && s[i] == d by {
        let m = choose|m: int| 0 <= m < all.len() && all[m] == d;
        assert(ee[m] == (diagnostic_key(d), d));
        assert(ee.contains(ee[m]));
        assert(r.contains(ee[m]));
        let i = choose|i: int| 0 <= i < r.len() && r[i] == ee[m];
        assert(s[i] == d);
    }
    assert forall|x: (Seq<Part>, DiagnosticView)| #![trigger ix.contains(x)] ix.contains(x) <==> (x.0
        == identity_key(x.1) && is_identity_maximum(all, x.1)) by {
        if ix.contains(x) {
            let j = choose|j: int| is_last_of_key(f, j) && f[j] == x;
            let d = s[j];
            assert(r[j].1 == d);
            assert(f[j] == (identity_key(d), d));
            assert forall|e: DiagnosticView| #![trigger all.contains(e)] all.contains(e) && identity_key(e)
                == identity_key(d) implies !parts_lt(diagnostic_key(d), diagnostic_key(e)) by {
                let m = choose|m: int| #![trigger s[m]] 0 <= m < s.len() && s[m] == e;
                assert(r[m].1 == e);
                assert(f[m] == (identity_key(e), e));
                lemma_parts_order(diagnostic_key(d), diagnostic_key(d), diagnostic_key(d));
                if m < j {
                    assert(!parts_lt(r[j].0, r[m].0));
                } else if m > j {
                    assert(f[m].0 != f[j].0);
                }
            }
        }
        if x.0 == identity_key(x.1) && is_identity_maximum(all, x.1) {
            let d = x.1;
            let j0 = choose|i: int| #![trigger s[i]] 0 <= i < s.len() && s[i] == d;
            assert(f[j0] == (identity_key(d), d));
            lemma_last_of_key_exists(f, j0, identity_key(d));
            let j = choose|j: int| #![trigger f[j]] j0 <= j && is_last_of_key(f, j) && f[j].0 == identity_key(d);
            let e = s[j];
            assert(r[j].1 == e);
            assert(f[j] == (identity_key(e), e));
            assert(all.contains(e));
            lemma_parts_order(diagnostic_key(d), diagnostic_key(e), diagnostic_key(e));
            if j0 < j {
                assert(!parts_lt(r[j].0, r[j0].0));
            }
            assert(diagnostic_key(d) == diagnostic_key(e));
            assert(d == e);
            assert(f[j] == x);
        }
    }
}

/// Diagnostics in any order, repeated or not, give the same diff: two lists
/// that hold the same diagnostics, where no two different diagnostics share
/// a key in diagnostic order, have the same identity index, and so the same
/// diff against any third list in either direction.
pub proof fn law_diagnostic_diff_ignores_input_order(
    a: Seq<DiagnosticView>,
    b: Seq<DiagnosticView>,
    c: Seq<DiagnosticView>,
)
    requires
        forall|d: DiagnosticView| a.contains(d) <==> b.contains(d),
        distinct_diagnostic_keys(a),
    ensures
        diagnostic_index(a) == diagnostic_index(b),
        diagnostic_diff(a, c) == diagnostic_diff(b, c),
        diagnostic_diff(c, a) == diagnostic_diff(c, b),
{
    assert(distinct_diagnostic_keys(b));
    lemma_diagnostic_index_members(a);
    lemma_diagnostic_index_members(b);
    let ia = diagnostic_index(a);
    let ib = diagnostic_index(b);
    let lt = |x: (Seq<Part>, DiagnosticView), y: (Seq<Part>, DiagnosticView)| parts_lt(x.0, y.0);
    assert forall|x: (Seq<Part>, DiagnosticView), y: (Seq<Part>, DiagnosticView), z: (Seq<Part>, DiagnosticView)|
        #[trigger] lt(x, y) && #[trigger] lt(y, z) implies lt(x, z) by {
        lemma_parts_order(x.0, y.0, z.0);
    }
    assert forall|x: (Seq<Part>, DiagnosticView)| !(#[trigger] lt(x, x)) by {
        lemma_parts_order(x.0, x.0, x.0);
    }
    assert(strictly_sorted(ia, lt)) by {
        assert forall|i: int, j: int| 0 <= i < j < ia.len() implies lt(#[trigger] ia[i], #[trigger] ia[j]) by {
        }
    }
    assert(strictly_sorted(ib, lt)) by {
        assert forall|i: int, j: int| 0 <= i < j < ib.len() implies lt(#[trigger] ib[i], #[trigger] ib[j]) by {
        }
    }
    assert forall|x: (Seq<Part>, DiagnosticView)| ia.contains(x) <==> ib.contains(x) by {
        if ia.contains(x) {
            assert(is_identity_maximum(a, x.1));
            assert(is_identity_maximum(b, x.1));
        }
        if ib.contains(x) {
            assert(is_identity_maximum(b, x.1));
            assert(is_identity_maximum(a, x.1));
        }
    }
    lemma_strictly_sorted_equal(ia, ib, lt);
}

proof fn lemma_find_self<V>(r: Seq<(Seq<Part>, V)>, i: int, j: int)
    requires
        rank_strict(r),
        0 <= j <= i < r.len(),
    ensures
        find_key(r, r[i].0, j) == i,
    decreases i - j,
{
    if j < i {
        assert(parts_lt(r[j].0, r[i].0));
        lemma_parts_order(r[i].0, r[i].0, r[i].0);
        lemma_find_self(r, i, j + 1);
    }
}

proof fn lemma_self_changes_empty(ix: Seq<(Seq<Part>, DiagnosticView)>, n: int)
    requires
        rank_strict(ix),
        0 <= n <= ix.len(),
    ensures
        removed_changes(ix.take(n), ix) == Seq::<DiagnosticChangeView>::empty(),
        modified_changes(ix.take(n), ix) == Seq::<DiagnosticChangeView>::empty(),
        added_changes(ix, ix.take(n)) == Seq::<DiagnosticChangeView>::empty(),
    decreases n,
{
    if n > 0 {
        lemma_self_changes_empty(ix, n - 1);
        let t = ix.take(n);
        assert(t.drop_last() =~= ix.take(n - 1));
        assert(t.last() == ix[n - 1]);
        lemma_find_self(ix, n - 1, 0);
        let d = ix[n - 1].1;
        assert(modified_aspects(d, d) =~= Seq::<DiagnosticModifiedAspect>::empty());
    }
}

/// A list of diagnostics compared with itself gives no change.
pub proof fn law_diagnostic_diff_with_itself_is_empty(a: Seq<DiagnosticView>)
    ensures
        diagnostic_diff(a, a) == (
            Seq::<DiagnosticChangeView>::empty(),
            Seq::<DiagnosticChangeView>::empty(),
            Seq::<DiagnosticChangeView>::empty(),
            (0usize, 0usize, 0usize),
        ),
{
    let f = identity_entries(rank_values(rank_sorted(diagnostic_entries(a))));
    lemma_rank_sorted_last_members(f);
    let ix = diagnostic_index(a);
    assert(ix == rank_sorted_last(f));
    lemma_self_changes_empty(ix, ix.len() as int);
    assert(ix.take(ix.len() as int) =~= ix);
}

} // verus!
