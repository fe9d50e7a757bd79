//! Edges stored in the semantic graph.

use vstd::prelude::*;

use crate::entity::EntityId;
use crate::graph::kind::EdgeKind;
use crate::graph::provenance::{provenance_views, duplicate_provenance, Provenance, ProvenanceView};
use crate::graph::query::edge_kind_rank;
use crate::text::{lemma_lex_irreflexive, lemma_lex_total, lemma_lex_transitive, lex_lt};

verus! {

/// Abstract value of an edge: endpoints, kind and provenance records.
pub struct EdgeView {
    pub source: Seq<char>,
    pub target: Seq<char>,
    pub kind: EdgeKind,
    pub provenance: Seq<ProvenanceView>,
}

/// Directed semantic edge. Its identity is its source, target and kind;
/// provenance does not take part in it.
#[derive(Debug, Clone)]
pub struct GraphEdge {
    source: EntityId,
    target: EntityId,
    kind: EdgeKind,
    provenance: Vec<Provenance>,
}

impl View for GraphEdge {
    type V = EdgeView;

    closed spec fn view(&self) -> EdgeView {
        EdgeView {
            source: self.source@,
            target: self.target@,
            kind: self.kind,
            provenance: provenance_views(self.provenance@),
        }
    }
}

/// Two edges have the same identity.
pub open spec fn same_edge(a: EdgeView, b: EdgeView) -> bool {
    a.source == b.source && a.target == b.target && a.kind == b.kind
}

/// Edge order: by source, then target, then kind.
pub open spec fn edge_lt(a: EdgeView, b: EdgeView) -> bool {
    ||| lex_lt(a.source, b.source)
    ||| (a.source == b.source && lex_lt(a.target, b.target))
    ||| (a.source == b.source && a.target == b.target && edge_kind_rank(a.kind) < edge_kind_rank(
        b.kind,
    ))
}

pub proof fn lemma_edge_lt_transitive(a: EdgeView, b: EdgeView, c: EdgeView)
    requires
        edge_lt(a, b),
        edge_lt(b, c),
    ensures
        edge_lt(a, c),
{
    if lex_lt(a.source, b.source) && lex_lt(b.source, c.source) {
        lemma_lex_transitive(a.source, b.source, c.source, 0);
    }
    if a.source == b.source && b.source == c.source && lex_lt(a.target, b.target) && lex_lt(
        b.target,
        c.target,
    ) {
        lemma_lex_transitive(a.target, b.target, c.target, 0);
    }
}

pub proof fn lemma_edge_lt_irreflexive(a: EdgeView)
    ensures
        !edge_lt(a, a),
{
    lemma_lex_irreflexive(a.source, 0);
    lemma_lex_irreflexive(a.target, 0);
}

pub proof fn lemma_edge_lt_total(a: EdgeView, b: EdgeView)
    ensures
        edge_lt(a, b) || edge_lt(b, a) || same_edge(a, b),
{
    lemma_lex_total(a.source, b.source, 0);
    lemma_lex_total(a.target, b.target, 0);
    assert(a.source.skip(0) =~= a.source);
    assert(b.source.skip(0) =~= b.source);
    assert(a.target.skip(0) =~= a.target);
    assert(b.target.skip(0) =~= b.target);
    if a.source == b.source && a.target == b.target && a.kind != b.kind {
        assert(edge_kind_rank(a.kind) != edge_kind_rank(b.kind));
    }
}

impl GraphEdge {
    /// Creates a semantic edge without provenance.
    pub fn new(source: EntityId, target: EntityId, kind: EdgeKind) -> (r: Self)
        ensures
            r@ == (EdgeView { source: source@, target: target@, kind, provenance: Seq::empty() }),
    {
        let r = GraphEdge { source, target, kind, provenance: Vec::new() };
        assert(provenance_views(r.provenance@) =~= Seq::empty());
        r
    }

    /// Creates a semantic edge with provenance records.
    pub fn new_with_provenance(source: EntityId, target: EntityId, kind: EdgeKind, provenance: Vec<Provenance>) -> (r:
        Self)
        ensures
            r@ == (EdgeView {
                source: source@,
                target: target@,
                kind,
                provenance: provenance_views(provenance@),
            }),
    {
        GraphEdge { source, target, kind, provenance }
    }

    /// Returns the source node identifier.
    pub fn source(&self) -> (r: &EntityId)
        ensures
            r@ == self@.source,
    {
        &self.source
    }

    /// Returns the target node identifier.
    pub fn target(&self) -> (r: &EntityId)
        ensures
            r@ == self@.target,
    {
        &self.target
    }

    /// Returns the edge kind.
    pub fn kind(&self) -> (r: EdgeKind)
        ensures
            r == self@.kind,
    {
        self.kind
    }

    /// Returns provenance records attached to the edge.
    pub fn provenance(&self) -> (r: &[Provenance])
        ensures
            provenance_views(r@) == self@.provenance,
    {
        self.provenance.as_slice()
    }

    /// Returns an identical copy of the edge.
    pub fn duplicate(&self) -> (r: Self)
        ensures
            r@ == self@,
    {
        GraphEdge {
            source: self.source.duplicate(),
            target: self.target.duplicate(),
            kind: self.kind,
            provenance: duplicate_provenance(self.provenance.as_slice()),
        }
    }
}

} // verus!
