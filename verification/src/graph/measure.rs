//! Accounting register measures.

use vstd::prelude::*;

use crate::entity::{EntityId, EntityName};
use crate::graph::provenance::{provenance_views, Provenance, ProvenanceView};
use crate::text::{all_ws, push_str};

verus! {

/// Abstract value of a measure: identifier, name, owner and provenance.
pub struct MeasureView {
    pub id: Seq<char>,
    pub name: Seq<char>,
    pub parent_id: Seq<char>,
    pub provenance: Seq<ProvenanceView>,
}

/// Identifier text `{parent}:measure:{name}` of a measure.
pub open spec fn measure_id_text(parent_id: Seq<char>, name: Seq<char>) -> Seq<char> {
    parent_id + ":measure:"@ + name
}

/// Accounting register resource semantic entity.
#[derive(Debug, Clone, PartialEq, Eq)]
pub struct Measure {
    id: EntityId,
    name: EntityName,
    parent_id: EntityId,
    provenance: Vec<Provenance>,
}

impl View for Measure {
    type V = MeasureView;

    closed spec fn view(&self) -> MeasureView {
        MeasureView {
            id: self.id@,
            name: self.name@,
            parent_id: self.parent_id@,
            provenance: provenance_views(self.provenance@),
        }
    }
}

impl Measure {
    /// Creates a measure for an accounting register metadata object; its
    /// identifier is `{parent}:measure:{name}`.
    pub fn new(parent_id: EntityId, name: EntityName, provenance: Vec<Provenance>) -> (r: Result<
        Self,
        MeasureError,
    >)
        ensures
            r is Err <==> all_ws(measure_id_text(parent_id@, name@)),
            r matches Ok(m) ==> m@ == (MeasureView {
                id: measure_id_text(parent_id@, name@),
                name: name@,
                parent_id: parent_id@,
                provenance: provenance_views(provenance@),
            }),
    {
        let mut raw = String::new();
        push_str(&mut raw, parent_id.as_str());
        push_str(&mut raw, ":measure:");
        push_str(&mut raw, name.as_str());
        proof {
            reveal_strlit(":measure:");
        }
        let id = match EntityId::from_string(raw) {
            Ok(id) => id,
            Err(_) => {
                return Err(MeasureError::InvalidIdentifier);
            },
        };
        Ok(Measure { id, name, parent_id, provenance })
    }

    /// Returns the stable measure identifier.
    pub fn id(&self) -> (r: &EntityId)
        ensures
            r@ == self@.id,
    {
        &self.id
    }

    /// Returns the measure name.
    pub fn name(&self) -> (r: &EntityName)
        ensures
            r@ == self@.name,
    {
        &self.name
    }

    /// Returns the owning metadata object identifier.
    pub fn parent_id(&self) -> (r: &EntityId)
        ensures
            r@ == self@.parent_id,
    {
        &self.parent_id
    }

    /// Returns provenance records attached to the measure.
    pub fn provenance(&self) -> (r: &[Provenance])
        ensures
            provenance_views(r@) == self@.provenance,
    {
        self.provenance.as_slice()
    }
}

/// Error produced while constructing a measure.
#[derive(Debug, Clone, Copy, PartialEq, Eq, Structural)]
pub enum MeasureError {
    /// The derived identifier is invalid.
    InvalidIdentifier,
}

impl MeasureError {
    /// Returns the human-readable error text.
    pub fn message(self) -> (r: &'static str)
        ensures
            r@ == "invalid measure identifier"@,
    {
        "invalid measure identifier"
    }
}

} // verus!
