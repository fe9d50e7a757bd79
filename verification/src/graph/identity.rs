//! Stable identifiers for the knowledge graph.

use vstd::prelude::*;

verus! {

/// Stable identifier of a node in the knowledge graph.
///
/// A node identifier is deterministic: it does not depend on insertion order,
/// collection indexes or process-specific state.
#[derive(Debug, Clone, PartialEq, Eq, PartialOrd, Ord, Hash)]
pub struct NodeId(String);

impl View for NodeId {
    type V = Seq<char>;

    closed spec fn view(&self) -> Seq<char> {
        self.0@
    }
}

impl NodeId {
    /// Creates a node identifier from its canonical string representation.
    pub fn new(value: &str) -> (r: Self)
        ensures
            r@ == value@,
    {
        NodeId(value.to_owned())
    }

    /// Creates a node identifier that takes ownership of its canonical string.
    pub fn from_string(value: String) -> (r: Self)
        ensures
            r@ == value@,
    {
        NodeId(value)
    }

    /// Returns the canonical string representation of the identifier.
    pub fn as_str(&self) -> (r: &str)
        ensures
            r@ == self@,
    {
        self.0.as_str()
    }

    /// Consumes the identifier and returns its canonical string.
    pub fn into_inner(self) -> (r: String)
        ensures
            r@ == self@,
    {
        self.0
    }

    /// Returns the canonical string (the `Display` form of the identifier).
    pub fn to_string(&self) -> (r: String)
        ensures
            r@ == self@,
    {
        self.0.clone()
    }

    /// Returns an identical copy of the identifier.
    pub fn duplicate(&self) -> (r: Self)
        ensures
            r@ == self@,
    {
        NodeId(self.0.clone())
    }
}

impl From<String> for NodeId {
    fn from(value: String) -> (r: Self)
        ensures
            r@ == value@,
    {
        NodeId(value)
    }
}

impl vstd::std_specs::convert::FromSpecImpl<String> for NodeId {
    open spec fn obeys_from_spec() -> bool {
        true
    }

    closed spec fn from_spec(v: String) -> Self {
        NodeId(v)
    }
}

impl<'a> From<&'a str> for NodeId {
    fn from(value: &'a str) -> (r: Self)
        ensures
            r@ == value@,
    {
        NodeId(value.to_owned())
    }
}

impl<'a> vstd::std_specs::convert::FromSpecImpl<&'a str> for NodeId {
    open spec fn obeys_from_spec() -> bool {
        false
    }

    closed spec fn from_spec(v: &'a str) -> Self {
        arbitrary()
    }
}

/// Stable identifier of an edge in the knowledge graph, derived from the
/// semantic identity of the relation rather than from insertion order.
#[derive(Debug, Clone, PartialEq, Eq, PartialOrd, Ord, Hash)]
pub struct EdgeId(String);

impl View for EdgeId {
    type V = Seq<char>;

    closed spec fn view(&self) -> Seq<char> {
        self.0@
    }
}

impl EdgeId {
    /// Creates an edge identifier from its canonical string representation.
    pub fn new(value: &str) -> (r: Self)
        ensures
            r@ == value@,
    {
        EdgeId(value.to_owned())
    }

    /// Creates an edge identifier that takes ownership of its canonical string.
    pub fn from_string(value: String) -> (r: Self)
        ensures
            r@ == value@,
    {
        EdgeId(value)
    }

    /// Returns the canonical string representation of the identifier.
    pub fn as_str(&self) -> (r: &str)
        ensures
            r@ == self@,
    {
        self.0.as_str()
    }

    /// Consumes the identifier and returns its canonical string.
    pub fn into_inner(self) -> (r: String)
        ensures
            r@ == self@,
    {
        self.0
    }

    /// Returns the canonical string (the `Display` form of the identifier).
    pub fn to_string(&self) -> (r: String)
        ensures
            r@ == self@,
    {
        self.0.clone()
    }

    /// Returns an identical copy of the identifier.
    pub fn duplicate(&self) -> (r: Self)
        ensures
            r@ == self@,
    {
        EdgeId(self.0.clone())
    }
}

impl From<String> for EdgeId {
    fn from(value: String) -> (r: Self)
        ensures
            r@ == value@,
    {
        EdgeId(value)
    }
}

impl vstd::std_specs::convert::FromSpecImpl<String> for EdgeId {
    open spec fn obeys_from_spec() -> bool {
        true
    }

    closed spec fn from_spec(v: String) -> Self {
        EdgeId(v)
    }
}

impl<'a> From<&'a str> for EdgeId {
    fn from(value: &'a str) -> (r: Self)
        ensures
            r@ == value@,
    {
        EdgeId(value.to_owned())
    }
}

impl<'a> vstd::std_specs::convert::FromSpecImpl<&'a str> for EdgeId {
    open spec fn obeys_from_spec() -> bool {
        false
    }

    closed spec fn from_spec(v: &'a str) -> Self {
        arbitrary()
    }
}

} // verus!
