//! Nodes stored in the semantic graph.

use vstd::prelude::*;

use crate::entity::{EntityId, EntityName};
use crate::graph::kind::NodeKind;
use crate::graph::provenance::{provenance_views, duplicate_provenance, Provenance, ProvenanceView};

verus! {

/// Abstract value of a node: identifier, name, kind and provenance records.
pub struct NodeView {
    pub id: Seq<char>,
    pub name: Seq<char>,
    pub kind: NodeKind,
    pub provenance: Seq<ProvenanceView>,
}

/// Semantic graph node.
#[derive(Debug, Clone, PartialEq, Eq)]
pub struct GraphNode {
    id: EntityId,
    name: EntityName,
    kind: NodeKind,
    provenance: Vec<Provenance>,
}

impl View for GraphNode {
    type V = NodeView;

    closed spec fn view(&self) -> NodeView {
        NodeView {
            id: self.id@,
            name: self.name@,
            kind: self.kind,
            provenance: provenance_views(self.provenance@),
        }
    }
}

impl GraphNode {
    /// Creates a semantic graph node without provenance.
    pub fn new(id: EntityId, name: EntityName, kind: NodeKind) -> (r: Self)
        ensures
            r@ == (NodeView { id: id@, name: name@, kind, provenance: Seq::empty() }),
    {
        let r = GraphNode { id, name, kind, provenance: Vec::new() };
        assert(provenance_views(r.provenance@) =~= Seq::empty());
        r
    }

    /// Creates a semantic graph node with provenance records.
    pub fn new_with_provenance(id: EntityId, name: EntityName, kind: NodeKind, provenance: Vec<Provenance>) -> (r:
        Self)
        ensures
            r@ == (NodeView { id: id@, name: name@, kind, provenance: provenance_views(provenance@) }),
    {
        GraphNode { id, name, kind, provenance }
    }

    /// Adds provenance and returns the node.
    pub fn with_provenance(self, provenance: Provenance) -> (r: Self)
        ensures
            r@ == (NodeView { provenance: self@.provenance.push(provenance@), ..self@ }),
    {
        let mut node = self;
        node.add_provenance(provenance);
        node
    }

    /// Returns the node identifier.
    pub fn id(&self) -> (r: &EntityId)
        ensures
            r@ == self@.id,
    {
        &self.id
    }

    /// Returns the node name.
    pub fn name(&self) -> (r: &EntityName)
        ensures
            r@ == self@.name,
    {
        &self.name
    }

    /// Returns the node kind.
    pub fn kind(&self) -> (r: NodeKind)
        ensures
            r == self@.kind,
    {
        self.kind
    }

    /// Returns provenance records attached to the node.
    pub fn provenance(&self) -> (r: &[Provenance])
        ensures
            provenance_views(r@) == self@.provenance,
    {
        self.provenance.as_slice()
    }

    /// Adds provenance to the node.
    pub fn add_provenance(&mut self, provenance: Provenance)
        ensures
            final(self)@ == (NodeView { provenance: old(self)@.provenance.push(provenance@), ..old(self)@ }),
    {
        let ghost before = self.provenance@;
        self.provenance.push(provenance);
        assert(provenance_views(self.provenance@) == provenance_views(before).push(provenance@));
    }

    /// Returns an identical copy of the node.
    pub fn duplicate(&self) -> (r: Self)
        ensures
            r@ == self@,
    {
        GraphNode {
            id: self.id.duplicate(),
            name: self.name.duplicate(),
            kind: self.kind,
            provenance: duplicate_provenance(self.provenance.as_slice()),
        }
    }
}

} // verus!
