//! Shared domain identifiers: stable entity identifiers and entity names.

use vstd::prelude::*;

use crate::text::{all_ws, is_blank};

verus! {

/// Stable identifier used by domain entities.
#[derive(Debug, Clone, PartialEq, Eq, PartialOrd, Ord, Hash)]
pub struct EntityId(String);

impl View for EntityId {
    type V = Seq<char>;

    closed spec fn view(&self) -> Seq<char> {
        self.0@
    }
}

impl EntityId {
    /// Creates an identifier from a string that is not entirely whitespace.
    pub fn new(value: &str) -> (r: Result<Self, EntityIdError>)
        ensures
            r is Err <==> all_ws(value@),
            r matches Ok(id) ==> id@ == value@,
    {
        if is_blank(value) {
            return Err(EntityIdError);
        }
        Ok(EntityId(value.to_owned()))
    }

    /// Creates an identifier that takes ownership of `value`.
    pub fn from_string(value: String) -> (r: Result<Self, EntityIdError>)
        ensures
            r is Err <==> all_ws(value@),
            r matches Ok(id) ==> id@ == value@,
    {
        if is_blank(value.as_str()) {
            return Err(EntityIdError);
        }
        Ok(EntityId(value))
    }

    /// Returns the identifier text.
    pub fn as_str(&self) -> (r: &str)
        ensures
            r@ == self@,
    {
        self.0.as_str()
    }

    /// Returns an identical copy of the identifier.
    pub fn duplicate(&self) -> (r: Self)
        ensures
            r@ == self@,
    {
        EntityId(self.0.clone())
    }
}

/// Error returned when an entity identifier is empty.
#[derive(Debug, Clone, Copy, PartialEq, Eq)]
pub struct EntityIdError;

impl EntityIdError {
    /// Returns the human-readable error text.
    pub fn message(&self) -> &'static str {
        "entity identifier must not be empty"
    }
}

/// Human-readable name of a domain entity.
#[derive(Debug, Clone, PartialEq, Eq, PartialOrd, Ord, Hash)]
pub struct EntityName(String);

impl View for EntityName {
    type V = Seq<char>;

    closed spec fn view(&self) -> Seq<char> {
        self.0@
    }
}

impl EntityName {
    /// Creates a name from a string that is not entirely whitespace.
    pub fn new(value: &str) -> (r: Result<Self, EntityNameError>)
        ensures
            r is Err <==> all_ws(value@),
            r matches Ok(name) ==> name@ == value@,
    {
        if is_blank(value) {
            return Err(EntityNameError);
        }
        Ok(EntityName(value.to_owned()))
    }

    /// Creates a name that takes ownership of `value`.
    pub fn from_string(value: String) -> (r: Result<Self, EntityNameError>)
        ensures
            r is Err <==> all_ws(value@),
            r matches Ok(name) ==> name@ == value@,
    {
        if is_blank(value.as_str()) {
            return Err(EntityNameError);
        }
        Ok(EntityName(value))
    }

    /// Returns the name text.
    pub fn as_str(&self) -> (r: &str)
        ensures
            r@ == self@,
    {
        self.0.as_str()
    }

    /// Returns an identical copy of the name.
    pub fn duplicate(&self) -> (r: Self)
        ensures
            r@ == self@,
    {
        EntityName(self.0.clone())
    }
}

/// Error returned when an entity name is empty.
#[derive(Debug, Clone, Copy, PartialEq, Eq)]
pub struct EntityNameError;

impl EntityNameError {
    /// Returns the human-readable error text.
    pub fn message(&self) -> &'static str {
        "entity name must not be empty"
    }
}

} // verus!
