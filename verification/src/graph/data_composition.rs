//! Report Data Composition content and its owner-scoped identities.
//!
//! An identity reads `data_composition:<kind>;owner#<bytes>:<owner>;<role>#<bytes>:<value>`,
//! where each byte count is the UTF-8 length of the text that follows it, so
//! that different owners and values cannot run together into one identity.

use vstd::prelude::*;

use crate::entity::{EntityId, EntityName};
use crate::text::{all_ws, decimal, push_decimal, push_str, byte_length, utf8_len};

verus! {

/// Content of a Report-owned Data Composition Schema.
#[derive(Debug, Default, Clone, Copy, PartialEq, Eq, PartialOrd, Ord, Hash)]
pub struct DataCompositionSchemaPayload {
    main: bool,
}

impl View for DataCompositionSchemaPayload {
    type V = bool;

    /// Whether the owning Report selects this Schema as its main one.
    closed spec fn view(&self) -> bool {
        self.main
    }
}

impl DataCompositionSchemaPayload {
    /// Creates Schema content with the owning Report's main-schema role.
    pub fn new(main: bool) -> (r: Self)
        ensures
            r@ == main,
    {
        DataCompositionSchemaPayload { main }
    }

    /// Returns whether the owning Report selects this Schema as its main one.
    pub fn is_main(self) -> (r: bool)
        ensures
            r == self@,
    {
        self.main
    }
}

/// Kind of one direct Data Set declared by a Data Composition Schema.
#[derive(Debug, Clone, Copy, PartialEq, Eq, PartialOrd, Ord, Hash, Structural)]
pub enum DataSetKind {
    /// Data Set backed by one complete query declaration.
    Query,
    /// Data Set populated from a runtime object.
    Object,
    /// Data Set combining subordinate source sets.
    Union,
}

/// Stable text of a Data Set kind.
pub open spec fn data_set_kind_text(kind: DataSetKind) -> Seq<char> {
    match kind {
        DataSetKind::Query => "query"@,
        DataSetKind::Object => "object"@,
        DataSetKind::Union => "union"@,
    }
}

impl DataSetKind {
    /// Returns a stable machine-readable representation.
    pub fn as_str(self) -> (r: &'static str)
        ensures
            r@ == data_set_kind_text(self),
    {
        match self {
            DataSetKind::Query => "query",
            DataSetKind::Object => "object",
            DataSetKind::Union => "union",
        }
    }
}

/// Content of one direct Data Set: its kind and local data source.
#[derive(Debug, Clone, PartialEq, Eq, PartialOrd, Ord, Hash)]
pub struct DataSetPayload {
    kind: DataSetKind,
    data_source: Option<EntityName>,
}

impl View for DataSetPayload {
    type V = (DataSetKind, Option<Seq<char>>);

    closed spec fn view(&self) -> (DataSetKind, Option<Seq<char>>) {
        (
            self.kind,
            match self.data_source {
                Some(n) => Some(n@),
                None => None,
            },
        )
    }
}

/// Invalid Data Set payload contract.
#[derive(Debug, Clone, Copy, PartialEq, Eq, Structural)]
pub enum DataSetPayloadError {
    /// Query or Object Data Set omitted its required local data source.
    MissingDataSource,
    /// Union Data Set supplied a direct data source.
    UnexpectedDataSource,
}

impl DataSetPayloadError {
    /// Returns the human-readable error text.
    pub fn message(self) -> (r: &'static str)
        ensures
            r@ == match self {
                DataSetPayloadError::MissingDataSource => "query or object data set requires a data source"@,
                DataSetPayloadError::UnexpectedDataSource => "union data set must not declare a direct data source"@,
            },
    {
        match self {
            DataSetPayloadError::MissingDataSource => "query or object data set requires a data source",
            DataSetPayloadError::UnexpectedDataSource => "union data set must not declare a direct data source",
        }
    }
}

impl DataSetPayload {
    /// Creates Data Set content: Query and Object Data Sets need a local data
    /// source and a Union must not have one.
    pub fn new(kind: DataSetKind, data_source: Option<EntityName>) -> (r: Result<Self, DataSetPayloadError>)
        ensures
            match r {
                Ok(p) => p@ == (
                    kind,
                    match data_source {
                        Some(n) => Some(n@),
                        None => None::<Seq<char>>,
                    },
                ) && (kind == DataSetKind::Union <==> data_source is None),
                Err(e) => e == (if kind == DataSetKind::Union {
                    DataSetPayloadError::UnexpectedDataSource
                } else {
                    DataSetPayloadError::MissingDataSource
                }) && (kind == DataSetKind::Union <==> data_source is Some),
            },
    {
        match (kind, &data_source) {
            (DataSetKind::Query, None) | (DataSetKind::Object, None) => Err(DataSetPayloadError::MissingDataSource),
            (DataSetKind::Union, Some(_)) => Err(DataSetPayloadError::UnexpectedDataSource),
            _ => Ok(DataSetPayload { kind, data_source }),
        }
    }

    /// Returns the declared Data Set kind.
    pub fn kind(&self) -> (r: DataSetKind)
        ensures
            r == self@.0,
    {
        self.kind
    }

    /// Returns the direct local data-source name, when there is one.
    pub fn data_source(&self) -> (r: Option<&EntityName>)
        ensures
            match r {
                Some(n) => self@.1 == Some(n@),
                None => self@.1 is None,
            },
    {
        match &self.data_source {
            Some(n) => Some(n),
            None => None,
        }
    }
}

/// Content of one direct named Data Composition Field: its data path.
#[derive(Debug, Clone, PartialEq, Eq, PartialOrd, Ord, Hash)]
pub struct DataCompositionFieldPayload {
    data_path: EntityName,
}

impl View for DataCompositionFieldPayload {
    type V = Seq<char>;

    /// The declared data path.
    closed spec fn view(&self) -> Seq<char> {
        self.data_path@
    }
}

impl DataCompositionFieldPayload {
    /// Creates Field content from its declared data path.
    pub fn new(data_path: EntityName) -> (r: Self)
        ensures
            r@ == data_path@,
    {
        DataCompositionFieldPayload { data_path }
    }

    /// Returns the declared data path.
    pub fn data_path(&self) -> (r: &EntityName)
        ensures
            r@ == self@,
    {
        &self.data_path
    }
}

/// Error produced when a Data Composition identity cannot be represented.
#[derive(Debug, Clone, Copy, PartialEq, Eq, Structural)]
pub struct DataCompositionIdentityError;

impl DataCompositionIdentityError {
    /// Returns the human-readable error text.
    pub fn message(self) -> (r: &'static str)
        ensures
            r@ == "invalid data composition identifier"@,
    {
        "invalid data composition identifier"
    }
}

/// Identity text of a value in a role under an owner.
pub open spec fn scoped_identity_text(
    kind: Seq<char>,
    owner: Seq<char>,
    role: Seq<char>,
    value: Seq<char>,
) -> Seq<char> {
    "data_composition:"@ + kind + ";owner#"@ + decimal(utf8_len(owner)) + ":"@ + owner + ";"@ + role + "#"@
        + decimal(utf8_len(value)) + ":"@ + value
}

/// The identity with text `text`, unless it is blank.
pub open spec fn identity_outcome(r: Result<EntityId, DataCompositionIdentityError>, text: Seq<char>) -> bool {
    match r {
        Ok(id) => id@ == text && !all_ws(text),
        Err(_) => all_ws(text),
    }
}

fn scoped_identity(kind: &str, owner_id: &EntityId, local_role: &str, local_value: &str) -> (r: Result<
    EntityId,
    DataCompositionIdentityError,
>)
    ensures
        identity_outcome(r, scoped_identity_text(kind@, owner_id@, local_role@, local_value@)),
{
    let mut text = String::new();
    push_str(&mut text, "data_composition:");
    push_str(&mut text, kind);
    push_str(&mut text, ";owner#");
    push_decimal(&mut text, byte_length(owner_id.as_str()));
    push_str(&mut text, ":");
    push_str(&mut text, owner_id.as_str());
    push_str(&mut text, ";");
    push_str(&mut text, local_role);
    push_str(&mut text, "#");
    push_decimal(&mut text, byte_length(local_value));
    push_str(&mut text, ":");
    push_str(&mut text, local_value);
    assert(text@ =~= scoped_identity_text(kind@, owner_id@, local_role@, local_value@));
    match EntityId::from_string(text) {
        Ok(id) => Ok(id),
        Err(_) => Err(DataCompositionIdentityError),
    }
}

/// Builds the owner-scoped identity of one direct Data Set.
pub fn data_set_id(schema_id: &EntityId, data_set_name: &EntityName) -> (r: Result<
    EntityId,
    DataCompositionIdentityError,
>)
    ensures
        identity_outcome(r, scoped_identity_text("data_set"@, schema_id@, "name"@, data_set_name@)),
{
    scoped_identity("data_set", schema_id, "name", data_set_name.as_str())
}

/// Builds the owner-scoped identity of one direct Data Composition Field.
pub fn data_composition_field_id(data_set_id: &EntityId, field_name: &EntityName) -> (r: Result<
    EntityId,
    DataCompositionIdentityError,
>)
    ensures
        identity_outcome(
            r,
            scoped_identity_text("data_composition_field"@, data_set_id@, "name"@, field_name@),
        ),
{
    scoped_identity("data_composition_field", data_set_id, "name", field_name.as_str())
}

/// Builds the fixed-role identity of the Query owned by a direct Query Data Set.
pub fn data_set_query_id(data_set_id: &EntityId) -> (r: Result<EntityId, DataCompositionIdentityError>)
    ensures
        identity_outcome(r, scoped_identity_text("data_set_query"@, data_set_id@, "role"@, "query"@)),
{
    scoped_identity("data_set_query", data_set_id, "role", "query")
}

} // verus!
