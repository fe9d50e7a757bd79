//! Scoped access-right semantic entities.

use vstd::prelude::*;

use crate::entity::{EntityId, EntityName};
use crate::graph::provenance::{Provenance, ProvenanceView};
use crate::text::{
    all_ws, byte_length, chars_of, decimal, is_blank, push_decimal, push_str, string_of_range,
    trim, trim_range, utf8_len,
};

verus! {

/// Opaque row-level condition attached to a direct access-right declaration.
#[derive(Debug, Clone, PartialEq, Eq, PartialOrd, Ord)]
pub struct AccessRightRowRestriction {
    condition: String,
}

impl View for AccessRightRowRestriction {
    type V = Seq<char>;

    closed spec fn view(&self) -> Seq<char> {
        self.condition@
    }
}

impl AccessRightRowRestriction {
    /// Creates a row restriction from opaque condition text: leading and trailing
    /// Unicode whitespace is removed, the rest is kept exactly; an empty
    /// canonical condition is rejected.
    pub fn new(condition: &str) -> (r: Result<Self, AccessRightRowRestrictionError>)
        ensures
            r is Err <==> trim(condition@).len() == 0,
            r matches Ok(restriction) ==> restriction@ == trim(condition@),
    {
        let v = chars_of(condition);
        let (start, end) = trim_range(&v);
        if start == end {
            return Err(AccessRightRowRestrictionError);
        }
        Ok(AccessRightRowRestriction { condition: string_of_range(&v, start, end) })
    }

    /// Returns the canonical opaque condition text.
    pub fn condition(&self) -> (r: &str)
        ensures
            r@ == self@,
    {
        self.condition.as_str()
    }
}

/// Error produced when an opaque row restriction is empty.
#[derive(Debug, Clone, Copy, PartialEq, Eq)]
pub struct AccessRightRowRestrictionError;

/// Condition text of an optional row restriction.
pub open spec fn restriction_view(r: Option<AccessRightRowRestriction>) -> Option<Seq<char>> {
    match r {
        Some(x) => Some(x@),
        None => None,
    }
}

/// Source-independent content of a scoped access-right node.
#[derive(Debug, Default, Clone, PartialEq, Eq, PartialOrd, Ord)]
pub struct AccessRightPayload {
    row_restriction: Option<AccessRightRowRestriction>,
}

impl View for AccessRightPayload {
    type V = Option<Seq<char>>;

    closed spec fn view(&self) -> Option<Seq<char>> {
        match self.row_restriction {
            Some(r) => Some(r@),
            None => None,
        }
    }
}

impl AccessRightPayload {
    /// Creates access-right content with an optional opaque row restriction.
    pub fn new(row_restriction: Option<AccessRightRowRestriction>) -> (r: Self)
        ensures
            r@ == restriction_view(row_restriction),
    {
        AccessRightPayload { row_restriction }
    }

    /// Returns the optional opaque row restriction.
    pub fn row_restriction(&self) -> (r: Option<&AccessRightRowRestriction>)
        ensures
            match r {
                Some(x) => self@ == Some(x@),
                None => self@ is None,
            },
    {
        match &self.row_restriction {
            Some(x) => Some(x),
            None => None,
        }
    }
}

/// Identifier text of an access right: length-prefixed resource and right, and
/// the length-prefixed condition when there is one.
pub open spec fn access_right_id_text(
    resource: Seq<char>,
    right: Seq<char>,
    condition: Option<Seq<char>>,
) -> Seq<char> {
    let base = "access_right:resource#"@ + decimal(utf8_len(resource)) + ":"@ + resource
        + ";right#"@ + decimal(utf8_len(right)) + ":"@ + right;
    match condition {
        Some(c) => base + ";row_restriction#"@ + decimal(utf8_len(c)) + ":"@ + c,
        None => base,
    }
}

/// Display name of an access right.
pub open spec fn access_right_name_text(
    resource: Seq<char>,
    right: Seq<char>,
    condition: Option<Seq<char>>,
) -> Seq<char> {
    let base = right + " on "@ + resource;
    match condition {
        Some(c) => base + " restricted by "@ + c,
        None => base,
    }
}

/// Access-right view: identifier, name, protected resource, right, row
/// restriction and provenance.
pub type AccessRightView = (
    Seq<char>,
    Seq<char>,
    Seq<char>,
    Seq<char>,
    Option<Seq<char>>,
    Seq<ProvenanceView>,
);

/// Scoped access-right semantic entity.
#[derive(Debug, Clone, PartialEq, Eq)]
pub struct AccessRight {
    id: EntityId,
    name: EntityName,
    protected_resource_id: EntityId,
    right_id: EntityId,
    payload: AccessRightPayload,
    provenance: Vec<Provenance>,
}

impl View for AccessRight {
    type V = AccessRightView;

    closed spec fn view(&self) -> AccessRightView {
        (
            self.id@,
            self.name@,
            self.protected_resource_id@,
            self.right_id@,
            self.payload@,
            self.provenance@.map_values(|p: Provenance| p@),
        )
    }
}

impl AccessRight {
    /// Creates an access right scoped to a protected resource.
    pub fn new(
        protected_resource_id: EntityId,
        right_id: EntityId,
        provenance: Vec<Provenance>,
    ) -> (r: Result<Self, AccessRightError>)
        ensures
            access_right_outcome(
                r,
                protected_resource_id@,
                right_id@,
                None,
                provenance@.map_values(|p: Provenance| p@),
            ),
    {
        Self::new_with_row_restriction(protected_resource_id, right_id, None, provenance)
    }

    /// Creates an access right with an optional opaque row restriction; its
    /// identifier and name are derived from the resource, right and condition.
    pub fn new_with_row_restriction(
        protected_resource_id: EntityId,
        right_id: EntityId,
        row_restriction: Option<AccessRightRowRestriction>,
        provenance: Vec<Provenance>,
    ) -> (r: Result<Self, AccessRightError>)
        ensures
            access_right_outcome(
                r,
                protected_resource_id@,
                right_id@,
                restriction_view(row_restriction),
                provenance@.map_values(|p: Provenance| p@),
            ),
    {
        let ghost condition = restriction_view(row_restriction);
        let mut raw_id = String::new();
        push_str(&mut raw_id, "access_right:resource#");
        push_decimal(&mut raw_id, byte_length(protected_resource_id.as_str()));
        push_str(&mut raw_id, ":");
        push_str(&mut raw_id, protected_resource_id.as_str());
        push_str(&mut raw_id, ";right#");
        push_decimal(&mut raw_id, byte_length(right_id.as_str()));
        push_str(&mut raw_id, ":");
        push_str(&mut raw_id, right_id.as_str());
        let mut name = String::new();
        push_str(&mut name, right_id.as_str());
        push_str(&mut name, " on ");
        push_str(&mut name, protected_resource_id.as_str());
        match &row_restriction {
            Some(restriction) => {
                push_str(&mut raw_id, ";row_restriction#");
                push_decimal(&mut raw_id, byte_length(restriction.condition()));
                push_str(&mut raw_id, ":");
                push_str(&mut raw_id, restriction.condition());
                push_str(&mut name, " restricted by ");
                push_str(&mut name, restriction.condition());
            },
            None => {},
        }
        assert(raw_id@ =~= access_right_id_text(protected_resource_id@, right_id@, condition));
        assert(name@ =~= access_right_name_text(protected_resource_id@, right_id@, condition));
        let id = match EntityId::from_string(raw_id) {
            Ok(id) => id,
            Err(_) => {
                return Err(AccessRightError::InvalidIdentifier);
            },
        };
        let name = match EntityName::from_string(name) {
            Ok(name) => name,
            Err(_) => {
                return Err(AccessRightError::InvalidName);
            },
        };
        Ok(
            AccessRight {
                id,
                name,
                protected_resource_id,
                right_id,
                payload: AccessRightPayload::new(row_restriction),
                provenance,
            },
        )
    }

    /// Returns the stable access-right identifier.
    pub fn id(&self) -> (r: &EntityId)
        ensures
            r@ == self@.0,
    {
        &self.id
    }

    /// Returns the access-right display name.
    pub fn name(&self) -> (r: &EntityName)
        ensures
            r@ == self@.1,
    {
        &self.name
    }

    /// Returns the protected resource identifier.
    pub fn protected_resource_id(&self) -> (r: &EntityId)
        ensures
            r@ == self@.2,
    {
        &self.protected_resource_id
    }

    /// Returns the right or operation identifier.
    pub fn right_id(&self) -> (r: &EntityId)
        ensures
            r@ == self@.3,
    {
        &self.right_id
    }

    /// Returns source-independent access-right content.
    pub fn payload(&self) -> (r: &AccessRightPayload)
        ensures
            r@ == self@.4,
    {
        &self.payload
    }

    /// Returns provenance records attached to the access right.
    pub fn provenance(&self) -> (r: &[Provenance])
        ensures
            r@.map_values(|p: Provenance| p@) == self@.5,
    {
        self.provenance.as_slice()
    }
}

/// What constructing an access right yields for the given inputs: an identifier
/// error when the derived identifier is blank, a name error when the derived name
/// is blank, otherwise the access right with the derived identifier and name.
pub open spec fn access_right_outcome(
    r: Result<AccessRight, AccessRightError>,
    resource: Seq<char>,
    right: Seq<char>,
    condition: Option<Seq<char>>,
    provenance: Seq<ProvenanceView>,
) -> bool {
    let id = access_right_id_text(resource, right, condition);
    let name = access_right_name_text(resource, right, condition);
    if all_ws(id) {
        r == Err::<AccessRight, AccessRightError>(AccessRightError::InvalidIdentifier)
    } else if all_ws(name) {
        r == Err::<AccessRight, AccessRightError>(AccessRightError::InvalidName)
    } else {
        r is Ok && r->Ok_0@ == (id, name, resource, right, condition, provenance)
    }
}

/// Error produced while constructing an access right.
#[derive(Debug, Clone, Copy, PartialEq, Eq, Structural)]
pub enum AccessRightError {
    /// The derived identifier is invalid.
    InvalidIdentifier,
    /// The derived name is invalid.
    InvalidName,
}

} // verus!
