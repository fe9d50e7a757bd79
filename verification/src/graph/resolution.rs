//! Typed semantic references: the target expressions that resolution
//! looks up in a graph.

use vstd::prelude::*;

use crate::entity::{EntityId, EntityName};
use crate::text::{decimal, push_decimal, push_str, byte_length, text_equal, utf8_len};

verus! {

/// Typed target expression of a semantic reference.
#[derive(Debug, Clone, PartialEq, Eq, PartialOrd, Ord, Hash)]
pub enum SemanticReference {
    /// Raw reference text as written in the source.
    Raw(String),
    /// Stable node identifier.
    NodeId(String),
    /// Node name.
    Name(EntityName),
    /// Named child of an owner.
    Child {
        /// Owner node.
        owner: EntityId,
        /// Child name.
        name: EntityName,
    },
    /// Owner of a child.
    Owner {
        /// Child node.
        child: EntityId,
    },
    /// Child owned by an owner.
    OwnedChild {
        /// Owner node.
        owner: EntityId,
        /// Child node.
        child: EntityId,
    },
}

/// Reference view: the variant's position in declaration order and its one
/// or two texts (the second empty for one-text variants).
pub type ReferenceView = (nat, Seq<char>, Seq<char>);

impl View for SemanticReference {
    type V = ReferenceView;

    open spec fn view(&self) -> ReferenceView {
        match self {
            SemanticReference::Raw(v) => (0, v@, Seq::empty()),
            SemanticReference::NodeId(v) => (1, v@, Seq::empty()),
            SemanticReference::Name(v) => (2, v@, Seq::empty()),
            SemanticReference::Child { owner, name } => (3, owner@, name@),
            SemanticReference::Owner { child } => (4, child@, Seq::empty()),
            SemanticReference::OwnedChild { owner, child } => (5, owner@, child@),
        }
    }
}

/// `;label#n:value`, where `n` is the UTF-8 length of `value`.
pub open spec fn component(label: Seq<char>, value: Seq<char>) -> Seq<char> {
    ";"@ + label + "#"@ + decimal(utf8_len(value)) + ":"@ + value
}

/// Appends `;label#n:value` to `target`.
pub fn push_component(target: &mut String, label: &str, value: &str)
    ensures
        final(target)@ == old(target)@ + component(label@, value@),
{
    let ghost start = target@;
    push_str(target, ";");
    push_str(target, label);
    push_str(target, "#");
    push_decimal(target, byte_length(value));
    push_str(target, ":");
    push_str(target, value);
    assert(target@ =~= start + component(label@, value@));
}

/// Canonical encoding of a reference: its variant name and labelled parts.
pub open spec fn reference_text(r: ReferenceView) -> Seq<char> {
    if r.0 == 0 {
        "raw"@ + component("value"@, r.1)
    } else if r.0 == 1 {
        "node_id"@ + component("value"@, r.1)
    } else if r.0 == 2 {
        "name"@ + component("value"@, r.1)
    } else if r.0 == 3 {
        "child"@ + component("owner"@, r.1) + component("name"@, r.2)
    } else if r.0 == 4 {
        "owner"@ + component("child"@, r.1)
    } else {
        "owned_child"@ + component("owner"@, r.1) + component("child"@, r.2)
    }
}

impl SemanticReference {
    /// Returns the canonical encoding of the reference.
    pub fn encoding(&self) -> (r: String)
        ensures
            r@ == reference_text(self@),
    {
        let mut value = String::new();
        match self {
            SemanticReference::Raw(raw) => {
                push_str(&mut value, "raw");
                push_component(&mut value, "value", raw.as_str());
            },
            SemanticReference::NodeId(id) => {
                push_str(&mut value, "node_id");
                push_component(&mut value, "value", id.as_str());
            },
            SemanticReference::Name(name) => {
                push_str(&mut value, "name");
                push_component(&mut value, "value", name.as_str());
            },
            SemanticReference::Child { owner, name } => {
                push_str(&mut value, "child");
                push_component(&mut value, "owner", owner.as_str());
                push_component(&mut value, "name", name.as_str());
            },
            SemanticReference::Owner { child } => {
                push_str(&mut value, "owner");
                push_component(&mut value, "child", child.as_str());
            },
            SemanticReference::OwnedChild { owner, child } => {
                push_str(&mut value, "owned_child");
                push_component(&mut value, "owner", owner.as_str());
                push_component(&mut value, "child", child.as_str());
            },
        }
        value
    }

    /// Returns whether two references are the same expression.
    pub fn same_as(&self, other: &SemanticReference) -> (r: bool)
        ensures
            r == (self@ == other@),
    {
        match (self, other) {
            (SemanticReference::Raw(a), SemanticReference::Raw(b)) => text_equal(a.as_str(), b.as_str()),
            (SemanticReference::NodeId(a), SemanticReference::NodeId(b)) => text_equal(a.as_str(), b.as_str()),
            (SemanticReference::Name(a), SemanticReference::Name(b)) => text_equal(a.as_str(), b.as_str()),
            (
                SemanticReference::Child { owner: a, name: x },
                SemanticReference::Child { owner: b, name: y },
            ) => text_equal(a.as_str(), b.as_str()) && text_equal(x.as_str(), y.as_str()),
            (SemanticReference::Owner { child: a }, SemanticReference::Owner { child: b }) => text_equal(
                a.as_str(),
                b.as_str(),
            ),
            (
                SemanticReference::OwnedChild { owner: a, child: x },
                SemanticReference::OwnedChild { owner: b, child: y },
            ) => text_equal(a.as_str(), b.as_str()) && text_equal(x.as_str(), y.as_str()),
            _ => false,
        }
    }

    /// Returns an identical copy of the reference.
    pub fn duplicate(&self) -> (r: SemanticReference)
        ensures
            r@ == self@,
    {
        match self {
            SemanticReference::Raw(v) => SemanticReference::Raw(v.clone()),
            SemanticReference::NodeId(v) => SemanticReference::NodeId(v.clone()),
            SemanticReference::Name(v) => SemanticReference::Name(v.duplicate()),
            SemanticReference::Child { owner, name } => SemanticReference::Child {
                owner: owner.duplicate(),
                name: name.duplicate(),
            },
            SemanticReference::Owner { child } => SemanticReference::Owner { child: child.duplicate() },
            SemanticReference::OwnedChild { owner, child } => SemanticReference::OwnedChild {
                owner: owner.duplicate(),
                child: child.duplicate(),
            },
        }
    }
}

/// Why a semantic reference could not be resolved.
#[derive(Debug, Clone, PartialEq, Eq)]
pub enum ResolutionError {
    /// No target matches the reference.
    MissingTarget {
        /// The unresolved reference.
        reference: SemanticReference,
    },
    /// More than one target matches the reference.
    AmbiguousTarget {
        /// The ambiguous reference.
        reference: SemanticReference,
        /// Matching targets.
        candidates: Vec<EntityId>,
    },
    /// The target has a kind the reference does not accept.
    IncompatibleNodeKind {
        /// The target node.
        id: EntityId,
        /// Accepted kinds.
        expected: Vec<crate::graph::kind::NodeKind>,
        /// The target's kind.
        actual: crate::graph::kind::NodeKind,
    },
    /// The child is not owned by the owner.
    InvalidOwnerReference {
        /// The owner node.
        owner: EntityId,
        /// The child node.
        child: EntityId,
    },
}

} // verus!
