//! Coverage audit of the semantic model: the static capability registry,
//! the gaps it derives, and the kinds observed in one graph snapshot.
//! Absence from a snapshot never changes the static support status of a
//! capability.

use vstd::prelude::*;

use crate::graph::kind::{
    edge_kind_at, metadata_kind_at, metadata_kind_at_position, metadata_kind_text, node_kind_code, node_kind_code_text,
    EdgeKind, MetadataKind, NodeKind,
};
use crate::graph::edge_identity::{edge_kind_code, edge_kind_code_text};
use crate::ordered::{into_values, keyed_views, sort_stable, sort_unique, sorted_stable, sorted_unique, values_of, Keyed};
use crate::ranked::{key_view, push_number, push_part, rank_sort, rank_sorted, rank_values, ranked_values, ranked_views, Part, Ranked};
use crate::text::{lex_lt, push_str, text_equal, text_less};
use crate::graph::edge::EdgeView;
use crate::graph::kind::{edge_kind_at_position, node_kind_at, node_kind_at_position};
use crate::graph::node::NodeView;
use crate::graph::provenance::provenance_views;
use crate::graph::report::DistributionKey;
use crate::graph::semantic_graph::{edge_views, node_views, SemanticGraph};
use crate::graph::validation::{
    validation_code_at, validation_code_at_position, validation_code_text, SemanticGraphValidationCode,
};

verus! {

/// Stable coverage capability category.
#[derive(Debug, Clone, Copy, PartialEq, Eq, PartialOrd, Ord, Hash, Structural)]
pub enum SemanticCoverageCategory {
    /// EDT or another adapter can discover and parse a metadata entity.
    MetadataEntity,
    /// The semantic graph can represent a node kind.
    SemanticNode,
    /// An owner-child relation is represented in the graph.
    OwnershipRelation,
    /// A typed semantic reference is extracted and resolved.
    MetadataReference,
    /// The semantic graph can represent an edge kind.
    SemanticEdge,
    /// A semantic fact carries source provenance.
    ProvenanceSource,
    /// A graph or build invariant is validated.
    ValidationRule,
    /// A semantic relation is available through the Query API.
    QueryCapability,
    /// An edge semantic participates in Impact Analysis.
    ImpactPropagationCapability,
}

/// Stable machine-readable name of a category.
pub open spec fn category_text(x: SemanticCoverageCategory) -> Seq<char> {
    match x {
        SemanticCoverageCategory::MetadataEntity => "metadata_entity"@,
        SemanticCoverageCategory::SemanticNode => "semantic_node"@,
        SemanticCoverageCategory::OwnershipRelation => "ownership_relation"@,
        SemanticCoverageCategory::MetadataReference => "metadata_reference"@,
        SemanticCoverageCategory::SemanticEdge => "semantic_edge"@,
        SemanticCoverageCategory::ProvenanceSource => "provenance_source"@,
        SemanticCoverageCategory::ValidationRule => "validation_rule"@,
        SemanticCoverageCategory::QueryCapability => "query_capability"@,
        SemanticCoverageCategory::ImpactPropagationCapability => "impact_propagation_capability"@,
    }
}

impl SemanticCoverageCategory {
    /// Returns the stable machine-readable category identifier.
    pub fn as_str(self) -> (r: &'static str)
        ensures
            r@ == category_text(self),
    {
        match self {
            SemanticCoverageCategory::MetadataEntity => "metadata_entity",
            SemanticCoverageCategory::SemanticNode => "semantic_node",
            SemanticCoverageCategory::OwnershipRelation => "ownership_relation",
            SemanticCoverageCategory::MetadataReference => "metadata_reference",
            SemanticCoverageCategory::SemanticEdge => "semantic_edge",
            SemanticCoverageCategory::ProvenanceSource => "provenance_source",
            SemanticCoverageCategory::ValidationRule => "validation_rule",
            SemanticCoverageCategory::QueryCapability => "query_capability",
            SemanticCoverageCategory::ImpactPropagationCapability => "impact_propagation_capability",
        }
    }
}

/// Position of a category in declaration order.
pub open spec fn category_rank(x: SemanticCoverageCategory) -> usize {
    match x {
        SemanticCoverageCategory::MetadataEntity => 0,
        SemanticCoverageCategory::SemanticNode => 1,
        SemanticCoverageCategory::OwnershipRelation => 2,
        SemanticCoverageCategory::MetadataReference => 3,
        SemanticCoverageCategory::SemanticEdge => 4,
        SemanticCoverageCategory::ProvenanceSource => 5,
        SemanticCoverageCategory::ValidationRule => 6,
        SemanticCoverageCategory::QueryCapability => 7,
        SemanticCoverageCategory::ImpactPropagationCapability => 8,
    }
}

fn category_rank_of(x: SemanticCoverageCategory) -> (r: usize)
    ensures
        r == category_rank(x),
{
    match x {
        SemanticCoverageCategory::MetadataEntity => 0,
        SemanticCoverageCategory::SemanticNode => 1,
        SemanticCoverageCategory::OwnershipRelation => 2,
        SemanticCoverageCategory::MetadataReference => 3,
        SemanticCoverageCategory::SemanticEdge => 4,
        SemanticCoverageCategory::ProvenanceSource => 5,
        SemanticCoverageCategory::ValidationRule => 6,
        SemanticCoverageCategory::QueryCapability => 7,
        SemanticCoverageCategory::ImpactPropagationCapability => 8,
    }
}

/// Categories in declaration order.
pub open spec fn category_at(i: int) -> SemanticCoverageCategory {
    if i == 0 {
        SemanticCoverageCategory::MetadataEntity
    } else if i == 1 {
        SemanticCoverageCategory::SemanticNode
    } else if i == 2 {
        SemanticCoverageCategory::OwnershipRelation
    } else if i == 3 {
        SemanticCoverageCategory::MetadataReference
    } else if i == 4 {
        SemanticCoverageCategory::SemanticEdge
    } else if i == 5 {
        SemanticCoverageCategory::ProvenanceSource
    } else if i == 6 {
        SemanticCoverageCategory::ValidationRule
    } else if i == 7 {
        SemanticCoverageCategory::QueryCapability
    } else {
        SemanticCoverageCategory::ImpactPropagationCapability
    }
}

fn category_at_position(i: usize) -> (r: SemanticCoverageCategory)
    requires
        i < 9,
    ensures
        r == category_at(i as int),
{
    if i == 0 {
        SemanticCoverageCategory::MetadataEntity
    } else if i == 1 {
        SemanticCoverageCategory::SemanticNode
    } else if i == 2 {
        SemanticCoverageCategory::OwnershipRelation
    } else if i == 3 {
        SemanticCoverageCategory::MetadataReference
    } else if i == 4 {
        SemanticCoverageCategory::SemanticEdge
    } else if i == 5 {
        SemanticCoverageCategory::ProvenanceSource
    } else if i == 6 {
        SemanticCoverageCategory::ValidationRule
    } else if i == 7 {
        SemanticCoverageCategory::QueryCapability
    } else {
        SemanticCoverageCategory::ImpactPropagationCapability
    }
}

/// Static support status, independent from occurrence in one graph snapshot.
#[derive(Debug, Clone, Copy, PartialEq, Eq, PartialOrd, Ord, Hash, Structural)]
pub enum SemanticCoverageStatus {
    /// Every evidence item required by the capability is present.
    Supported,
    /// Some implementation exists, but at least one required stage is absent.
    PartiallySupported,
    /// The capability is relevant but not implemented by the audited pipeline.
    Unsupported,
    /// The stage is objectively inapplicable to the capability.
    NotApplicable,
    /// A model variant exists without production pipeline integration.
    DeclaredOnly,
}

/// Stable machine-readable name of a status.
pub open spec fn status_text(x: SemanticCoverageStatus) -> Seq<char> {
    match x {
        SemanticCoverageStatus::Supported => "supported"@,
        SemanticCoverageStatus::PartiallySupported => "partially_supported"@,
        SemanticCoverageStatus::Unsupported => "unsupported"@,
        SemanticCoverageStatus::NotApplicable => "not_applicable"@,
        SemanticCoverageStatus::DeclaredOnly => "declared_only"@,
    }
}

/// Returns the stable machine-readable name of a status.
fn status_code(x: SemanticCoverageStatus) -> (r: &'static str)
    ensures
        r@ == status_text(x),
{
    match x {
        SemanticCoverageStatus::Supported => "supported",
        SemanticCoverageStatus::PartiallySupported => "partially_supported",
        SemanticCoverageStatus::Unsupported => "unsupported",
        SemanticCoverageStatus::NotApplicable => "not_applicable",
        SemanticCoverageStatus::DeclaredOnly => "declared_only",
    }
}

/// Statuses in declaration order.
pub open spec fn status_at(i: int) -> SemanticCoverageStatus {
    if i == 0 {
        SemanticCoverageStatus::Supported
    } else if i == 1 {
        SemanticCoverageStatus::PartiallySupported
    } else if i == 2 {
        SemanticCoverageStatus::Unsupported
    } else if i == 3 {
        SemanticCoverageStatus::NotApplicable
    } else {
        SemanticCoverageStatus::DeclaredOnly
    }
}

fn status_at_position(i: usize) -> (r: SemanticCoverageStatus)
    requires
        i < 5,
    ensures
        r == status_at(i as int),
{
    if i == 0 {
        SemanticCoverageStatus::Supported
    } else if i == 1 {
        SemanticCoverageStatus::PartiallySupported
    } else if i == 2 {
        SemanticCoverageStatus::Unsupported
    } else if i == 3 {
        SemanticCoverageStatus::NotApplicable
    } else {
        SemanticCoverageStatus::DeclaredOnly
    }
}

/// Typed evidence used to justify a coverage status.
#[derive(Debug, Clone, Copy, PartialEq, Eq, PartialOrd, Ord, Hash, Structural)]
pub enum SemanticCoverageEvidence {
    /// A source object is discovered.
    Discovered,
    /// Source input is parsed into a typed descriptor.
    Parsed,
    /// A typed semantic representation exists.
    Modeled,
    /// A corresponding `NodeKind` is declared.
    NodeKindDeclared,
    /// A graph builder emits the node.
    NodeEmitted,
    /// Stable semantic identity is assigned.
    StableIdentityAssigned,
    /// Expected typed semantic payload is preserved.
    SemanticPayloadPreserved,
    /// Provenance is attached.
    ProvenanceAttached,
    /// An owner is resolved.
    OwnerResolved,
    /// A containment edge is emitted.
    OwnershipEdgeEmitted,
    /// A semantic reference is extracted.
    ReferenceExtracted,
    /// A semantic reference is resolved.
    ReferenceResolved,
    /// A typed diagnostic is emitted on failure.
    DiagnosticEmitted,
    /// A corresponding `EdgeKind` is declared.
    EdgeKindDeclared,
    /// A semantic edge is emitted.
    SemanticEdgeEmitted,
    /// An endpoint or owner validation rule exists.
    ValidationRuleExists,
    /// The Query API exposes the capability.
    QuerySupportExists,
    /// Impact Analysis has an explicit propagation policy.
    ImpactPropagationExists,
    /// A representative positive test exists.
    PositiveTestExists,
    /// A representative negative test exists.
    NegativeTestExists,
    /// An end-to-end integration test exists.
    IntegrationTestExists,
    /// Resolution statistics include the capability.
    ResolutionStatisticsRecorded,
}

/// Evidence in declaration order.
pub open spec fn evidence_at(i: int) -> SemanticCoverageEvidence {
    if i == 0 {
        SemanticCoverageEvidence::Discovered
    } else if i == 1 {
        SemanticCoverageEvidence::Parsed
    } else if i == 2 {
        SemanticCoverageEvidence::Modeled
    } else if i == 3 {
        SemanticCoverageEvidence::NodeKindDeclared
    } else if i == 4 {
        SemanticCoverageEvidence::NodeEmitted
    } else if i == 5 {
        SemanticCoverageEvidence::StableIdentityAssigned
    } else if i == 6 {
        SemanticCoverageEvidence::SemanticPayloadPreserved
    } else if i == 7 {
        SemanticCoverageEvidence::ProvenanceAttached
    } else if i == 8 {
        SemanticCoverageEvidence::OwnerResolved
    } else if i == 9 {
        SemanticCoverageEvidence::OwnershipEdgeEmitted
    } else if i == 10 {
        SemanticCoverageEvidence::ReferenceExtracted
    } else if i == 11 {
        SemanticCoverageEvidence::ReferenceResolved
    } else if i == 12 {
        SemanticCoverageEvidence::DiagnosticEmitted
    } else if i == 13 {
        SemanticCoverageEvidence::EdgeKindDeclared
    } else if i == 14 {
        SemanticCoverageEvidence::SemanticEdgeEmitted
    } else if i == 15 {
        SemanticCoverageEvidence::ValidationRuleExists
    } else if i == 16 {
        SemanticCoverageEvidence::QuerySupportExists
    } else if i == 17 {
        SemanticCoverageEvidence::ImpactPropagationExists
    } else if i == 18 {
        SemanticCoverageEvidence::PositiveTestExists
    } else if i == 19 {
        SemanticCoverageEvidence::NegativeTestExists
    } else if i == 20 {
        SemanticCoverageEvidence::IntegrationTestExists
    } else {
        SemanticCoverageEvidence::ResolutionStatisticsRecorded
    }
}

fn evidence_at_position(i: usize) -> (r: SemanticCoverageEvidence)
    requires
        i < 22,
    ensures
        r == evidence_at(i as int),
{
    if i == 0 {
        SemanticCoverageEvidence::Discovered
    } else if i == 1 {
        SemanticCoverageEvidence::Parsed
    } else if i == 2 {
        SemanticCoverageEvidence::Modeled
    } else if i == 3 {
        SemanticCoverageEvidence::NodeKindDeclared
    } else if i == 4 {
        SemanticCoverageEvidence::NodeEmitted
    } else if i == 5 {
        SemanticCoverageEvidence::StableIdentityAssigned
    } else if i == 6 {
        SemanticCoverageEvidence::SemanticPayloadPreserved
    } else if i == 7 {
        SemanticCoverageEvidence::ProvenanceAttached
    } else if i == 8 {
        SemanticCoverageEvidence::OwnerResolved
    } else if i == 9 {
        SemanticCoverageEvidence::OwnershipEdgeEmitted
    } else if i == 10 {
        SemanticCoverageEvidence::ReferenceExtracted
    } else if i == 11 {
        SemanticCoverageEvidence::ReferenceResolved
    } else if i == 12 {
        SemanticCoverageEvidence::DiagnosticEmitted
    } else if i == 13 {
        SemanticCoverageEvidence::EdgeKindDeclared
    } else if i == 14 {
        SemanticCoverageEvidence::SemanticEdgeEmitted
    } else if i == 15 {
        SemanticCoverageEvidence::ValidationRuleExists
    } else if i == 16 {
        SemanticCoverageEvidence::QuerySupportExists
    } else if i == 17 {
        SemanticCoverageEvidence::ImpactPropagationExists
    } else if i == 18 {
        SemanticCoverageEvidence::PositiveTestExists
    } else if i == 19 {
        SemanticCoverageEvidence::NegativeTestExists
    } else if i == 20 {
        SemanticCoverageEvidence::IntegrationTestExists
    } else {
        SemanticCoverageEvidence::ResolutionStatisticsRecorded
    }
}

/// Typed metadata reference capability identity.
#[derive(Debug, Clone, Copy, PartialEq, Eq, PartialOrd, Ord, Hash, Structural)]
pub enum SemanticReferenceCapability {
    /// EDT metadata type reference to a target metadata kind.
    MetadataType(MetadataKind),
    /// Local or qualified BSL call reference.
    BslCall,
}

/// Typed provenance path identity.
#[derive(Debug, Clone, Copy, PartialEq, Eq, PartialOrd, Ord, Hash, Structural)]
pub enum SemanticProvenanceCapability {
    /// Top-level metadata object node provenance.
    MetadataObjectNode,
    /// Metadata child node provenance.
    MetadataChildNode,
    /// BSL module node provenance.
    ModuleNode,
    /// BSL declaration node provenance.
    SymbolNode,
    /// Owner-child edge provenance.
    OwnershipEdge,
    /// Resolved reference edge provenance.
    ResolvedReferenceEdge,
    /// Semantic diagnostic provenance.
    Diagnostic,
    /// Pending reference request provenance.
    ReferenceRequest,
}

/// Stable code of a provenance path.
pub open spec fn provenance_kind_text(x: SemanticProvenanceCapability) -> Seq<char> {
    match x {
        SemanticProvenanceCapability::MetadataObjectNode => "metadata_object_node"@,
        SemanticProvenanceCapability::MetadataChildNode => "metadata_child_node"@,
        SemanticProvenanceCapability::ModuleNode => "module_node"@,
        SemanticProvenanceCapability::SymbolNode => "symbol_node"@,
        SemanticProvenanceCapability::OwnershipEdge => "ownership_edge"@,
        SemanticProvenanceCapability::ResolvedReferenceEdge => "resolved_reference_edge"@,
        SemanticProvenanceCapability::Diagnostic => "diagnostic"@,
        SemanticProvenanceCapability::ReferenceRequest => "reference_request"@,
    }
}

/// Returns the stable code of a provenance path.
fn provenance_kind_code(x: SemanticProvenanceCapability) -> (r: &'static str)
    ensures
        r@ == provenance_kind_text(x),
{
    match x {
        SemanticProvenanceCapability::MetadataObjectNode => "metadata_object_node",
        SemanticProvenanceCapability::MetadataChildNode => "metadata_child_node",
        SemanticProvenanceCapability::ModuleNode => "module_node",
        SemanticProvenanceCapability::SymbolNode => "symbol_node",
        SemanticProvenanceCapability::OwnershipEdge => "ownership_edge",
        SemanticProvenanceCapability::ResolvedReferenceEdge => "resolved_reference_edge",
        SemanticProvenanceCapability::Diagnostic => "diagnostic",
        SemanticProvenanceCapability::ReferenceRequest => "reference_request",
    }
}

/// Provenance paths in declaration order.
pub open spec fn provenance_capability_at(i: int) -> SemanticProvenanceCapability {
    if i == 0 {
        SemanticProvenanceCapability::MetadataObjectNode
    } else if i == 1 {
        SemanticProvenanceCapability::MetadataChildNode
    } else if i == 2 {
        SemanticProvenanceCapability::ModuleNode
    } else if i == 3 {
        SemanticProvenanceCapability::SymbolNode
    } else if i == 4 {
        SemanticProvenanceCapability::OwnershipEdge
    } else if i == 5 {
        SemanticProvenanceCapability::ResolvedReferenceEdge
    } else if i == 6 {
        SemanticProvenanceCapability::Diagnostic
    } else {
        SemanticProvenanceCapability::ReferenceRequest
    }
}

fn provenance_capability_at_position(i: usize) -> (r: SemanticProvenanceCapability)
    requires
        i < 8,
    ensures
        r == provenance_capability_at(i as int),
{
    if i == 0 {
        SemanticProvenanceCapability::MetadataObjectNode
    } else if i == 1 {
        SemanticProvenanceCapability::MetadataChildNode
    } else if i == 2 {
        SemanticProvenanceCapability::ModuleNode
    } else if i == 3 {
        SemanticProvenanceCapability::SymbolNode
    } else if i == 4 {
        SemanticProvenanceCapability::OwnershipEdge
    } else if i == 5 {
        SemanticProvenanceCapability::ResolvedReferenceEdge
    } else if i == 6 {
        SemanticProvenanceCapability::Diagnostic
    } else {
        SemanticProvenanceCapability::ReferenceRequest
    }
}

/// Typed Query API capability identity.
#[derive(Debug, Clone, Copy, PartialEq, Eq, PartialOrd, Ord, Hash, Structural)]
pub enum SemanticQueryCapability {
    /// Stable identifier lookup.
    NodeLookup,
    /// Exact name and kind lookup.
    NameAndKindLookup,
    /// Owner and child navigation.
    OwnershipNavigation,
    /// Typed edge lookup and adjacency.
    EdgeNavigation,
    /// Dependency and usage classification.
    DependencyNavigation,
    /// Bounded deterministic traversal.
    Traversal,
}

/// Stable code of a query capability.
pub open spec fn query_kind_text(x: SemanticQueryCapability) -> Seq<char> {
    match x {
        SemanticQueryCapability::NodeLookup => "node_lookup"@,
        SemanticQueryCapability::NameAndKindLookup => "name_and_kind_lookup"@,
        SemanticQueryCapability::OwnershipNavigation => "ownership_navigation"@,
        SemanticQueryCapability::EdgeNavigation => "edge_navigation"@,
        SemanticQueryCapability::DependencyNavigation => "dependency_navigation"@,
        SemanticQueryCapability::Traversal => "traversal"@,
    }
}

/// Returns the stable code of a query capability.
fn query_kind_code(x: SemanticQueryCapability) -> (r: &'static str)
    ensures
        r@ == query_kind_text(x),
{
    match x {
        SemanticQueryCapability::NodeLookup => "node_lookup",
        SemanticQueryCapability::NameAndKindLookup => "name_and_kind_lookup",
        SemanticQueryCapability::OwnershipNavigation => "ownership_navigation",
        SemanticQueryCapability::EdgeNavigation => "edge_navigation",
        SemanticQueryCapability::DependencyNavigation => "dependency_navigation",
        SemanticQueryCapability::Traversal => "traversal",
    }
}

/// Query capabilities in declaration order.
pub open spec fn query_capability_at(i: int) -> SemanticQueryCapability {
    if i == 0 {
        SemanticQueryCapability::NodeLookup
    } else if i == 1 {
        SemanticQueryCapability::NameAndKindLookup
    } else if i == 2 {
        SemanticQueryCapability::OwnershipNavigation
    } else if i == 3 {
        SemanticQueryCapability::EdgeNavigation
    } else if i == 4 {
        SemanticQueryCapability::DependencyNavigation
    } else {
        SemanticQueryCapability::Traversal
    }
}

fn query_capability_at_position(i: usize) -> (r: SemanticQueryCapability)
    requires
        i < 6,
    ensures
        r == query_capability_at(i as int),
{
    if i == 0 {
        SemanticQueryCapability::NodeLookup
    } else if i == 1 {
        SemanticQueryCapability::NameAndKindLookup
    } else if i == 2 {
        SemanticQueryCapability::OwnershipNavigation
    } else if i == 3 {
        SemanticQueryCapability::EdgeNavigation
    } else if i == 4 {
        SemanticQueryCapability::DependencyNavigation
    } else {
        SemanticQueryCapability::Traversal
    }
}

/// Explicit priority assigned by coverage governance policy.
#[derive(Debug, Clone, Copy, PartialEq, Eq, PartialOrd, Ord, Hash, Structural)]
pub enum SemanticCoverageGapPriority {
    /// Silent semantic loss or a systemic identity/provenance failure.
    Critical,
    /// A core entity, ownership relation, reference or edge is absent.
    High,
    /// Support or representative verification is incomplete.
    Medium,
    /// Documentation or an additional non-critical scenario is missing.
    Low,
}

/// Position of a priority in declaration order.
pub open spec fn priority_rank(x: SemanticCoverageGapPriority) -> usize {
    match x {
        SemanticCoverageGapPriority::Critical => 0,
        SemanticCoverageGapPriority::High => 1,
        SemanticCoverageGapPriority::Medium => 2,
        SemanticCoverageGapPriority::Low => 3,
    }
}

fn priority_rank_of(x: SemanticCoverageGapPriority) -> (r: usize)
    ensures
        r == priority_rank(x),
{
    match x {
        SemanticCoverageGapPriority::Critical => 0,
        SemanticCoverageGapPriority::High => 1,
        SemanticCoverageGapPriority::Medium => 2,
        SemanticCoverageGapPriority::Low => 3,
    }
}

/// Priorities in declaration order.
pub open spec fn priority_at(i: int) -> SemanticCoverageGapPriority {
    if i == 0 {
        SemanticCoverageGapPriority::Critical
    } else if i == 1 {
        SemanticCoverageGapPriority::High
    } else if i == 2 {
        SemanticCoverageGapPriority::Medium
    } else {
        SemanticCoverageGapPriority::Low
    }
}

fn priority_at_position(i: usize) -> (r: SemanticCoverageGapPriority)
    requires
        i < 4,
    ensures
        r == priority_at(i as int),
{
    if i == 0 {
        SemanticCoverageGapPriority::Critical
    } else if i == 1 {
        SemanticCoverageGapPriority::High
    } else if i == 2 {
        SemanticCoverageGapPriority::Medium
    } else {
        SemanticCoverageGapPriority::Low
    }
}

/// Stable typed identity of one coverage capability.
#[derive(Debug, Clone, Copy, PartialEq, Eq, PartialOrd, Ord, Hash, Structural)]
pub enum SemanticCoverageCapabilityId {
    /// End-to-end metadata entity handling.
    MetadataEntity(MetadataKind),
    /// Semantic node model and graph integration.
    SemanticNode(NodeKind),
    /// Owner-child handling for a child node kind.
    OwnershipRelation(NodeKind),
    /// Typed reference extraction and resolution.
    MetadataReference(SemanticReferenceCapability),
    /// Semantic edge model and graph integration.
    SemanticEdge(EdgeKind),
    /// Provenance path.
    ProvenanceSource(SemanticProvenanceCapability),
    /// Validation rule.
    ValidationRule(SemanticGraphValidationCode),
    /// Query API capability.
    QueryCapability(SemanticQueryCapability),
    /// Impact propagation policy for an edge kind.
    ImpactPropagation(EdgeKind),
}

/// The category an identity implies.
pub open spec fn id_category(id: SemanticCoverageCapabilityId) -> SemanticCoverageCategory {
    match id {
        SemanticCoverageCapabilityId::MetadataEntity(_) => SemanticCoverageCategory::MetadataEntity,
        SemanticCoverageCapabilityId::SemanticNode(_) => SemanticCoverageCategory::SemanticNode,
        SemanticCoverageCapabilityId::OwnershipRelation(_) => SemanticCoverageCategory::OwnershipRelation,
        SemanticCoverageCapabilityId::MetadataReference(_) => SemanticCoverageCategory::MetadataReference,
        SemanticCoverageCapabilityId::SemanticEdge(_) => SemanticCoverageCategory::SemanticEdge,
        SemanticCoverageCapabilityId::ProvenanceSource(_) => SemanticCoverageCategory::ProvenanceSource,
        SemanticCoverageCapabilityId::ValidationRule(_) => SemanticCoverageCategory::ValidationRule,
        SemanticCoverageCapabilityId::QueryCapability(_) => SemanticCoverageCategory::QueryCapability,
        SemanticCoverageCapabilityId::ImpactPropagation(_) => SemanticCoverageCategory::ImpactPropagationCapability,
    }
}

/// Code of a node kind inside a capability identifier: metadata node kinds
/// are marked as such.
pub open spec fn node_part(k: NodeKind) -> Seq<char> {
    match k {
        NodeKind::Metadata(m) => "metadata."@ + metadata_kind_text(m),
        _ => node_kind_code_text(k),
    }
}

/// Stable machine-readable identifier of a capability.
pub open spec fn capability_id_text(id: SemanticCoverageCapabilityId) -> Seq<char> {
    match id {
        SemanticCoverageCapabilityId::MetadataEntity(k) => "metadata_entity."@ + metadata_kind_text(k),
        SemanticCoverageCapabilityId::SemanticNode(k) => "semantic_node."@ + node_part(k),
        SemanticCoverageCapabilityId::OwnershipRelation(k) => "ownership_relation."@ + node_part(k),
        SemanticCoverageCapabilityId::MetadataReference(r) => match r {
            SemanticReferenceCapability::MetadataType(k) => "metadata_reference.type."@ + metadata_kind_text(k),
            SemanticReferenceCapability::BslCall => "metadata_reference.bsl_call"@,
        },
        SemanticCoverageCapabilityId::SemanticEdge(k) => "semantic_edge."@ + edge_kind_code_text(k),
        SemanticCoverageCapabilityId::ProvenanceSource(k) => "provenance_source."@ + provenance_kind_text(k),
        SemanticCoverageCapabilityId::ValidationRule(c) => "validation_rule."@ + validation_code_text(c),
        SemanticCoverageCapabilityId::QueryCapability(k) => "query_capability."@ + query_kind_text(k),
        SemanticCoverageCapabilityId::ImpactPropagation(k) => "impact_propagation."@ + edge_kind_code_text(k),
    }
}

fn push_node_part(out: &mut String, k: NodeKind)
    ensures
        final(out)@ == old(out)@ + node_part(k),
{
    let ghost start = out@;
    match k {
        NodeKind::Metadata(m) => {
            push_str(out, "metadata.");
            push_str(out, m.as_str());
        },
        _ => {
            push_str(out, node_kind_code(k));
        },
    }
    assert(out@ =~= start + node_part(k));
}

impl SemanticCoverageCapabilityId {
    /// Returns the category implied by this typed identity.
    pub fn category(self) -> (r: SemanticCoverageCategory)
        ensures
            r == id_category(self),
    {
        match self {
            SemanticCoverageCapabilityId::MetadataEntity(_) => SemanticCoverageCategory::MetadataEntity,
            SemanticCoverageCapabilityId::SemanticNode(_) => SemanticCoverageCategory::SemanticNode,
            SemanticCoverageCapabilityId::OwnershipRelation(_) => SemanticCoverageCategory::OwnershipRelation,
            SemanticCoverageCapabilityId::MetadataReference(_) => SemanticCoverageCategory::MetadataReference,
            SemanticCoverageCapabilityId::SemanticEdge(_) => SemanticCoverageCategory::SemanticEdge,
            SemanticCoverageCapabilityId::ProvenanceSource(_) => SemanticCoverageCategory::ProvenanceSource,
            SemanticCoverageCapabilityId::ValidationRule(_) => SemanticCoverageCategory::ValidationRule,
            SemanticCoverageCapabilityId::QueryCapability(_) => SemanticCoverageCategory::QueryCapability,
            SemanticCoverageCapabilityId::ImpactPropagation(_) => SemanticCoverageCategory::ImpactPropagationCapability,
        }
    }

    /// Returns the stable machine-readable capability identifier.
    pub fn as_str(self) -> (r: String)
        ensures
            r@ == capability_id_text(self),
    {
        let mut out = String::new();
        match self {
            SemanticCoverageCapabilityId::MetadataEntity(k) => {
                push_str(&mut out, "metadata_entity.");
                push_str(&mut out, k.as_str());
            },
            SemanticCoverageCapabilityId::SemanticNode(k) => {
                push_str(&mut out, "semantic_node.");
                push_node_part(&mut out, k);
            },
            SemanticCoverageCapabilityId::OwnershipRelation(k) => {
                push_str(&mut out, "ownership_relation.");
                push_node_part(&mut out, k);
            },
            SemanticCoverageCapabilityId::MetadataReference(r) => match r {
                SemanticReferenceCapability::MetadataType(k) => {
                    push_str(&mut out, "metadata_reference.type.");
                    push_str(&mut out, k.as_str());
                },
                SemanticReferenceCapability::BslCall => {
                    push_str(&mut out, "metadata_reference.bsl_call");
                },
            },
            SemanticCoverageCapabilityId::SemanticEdge(k) => {
                push_str(&mut out, "semantic_edge.");
                push_str(&mut out, edge_kind_code(k));
            },
            SemanticCoverageCapabilityId::ProvenanceSource(k) => {
                push_str(&mut out, "provenance_source.");
                push_str(&mut out, provenance_kind_code(k));
            },
            SemanticCoverageCapabilityId::ValidationRule(c) => {
                push_str(&mut out, "validation_rule.");
                push_str(&mut out, c.as_str());
            },
            SemanticCoverageCapabilityId::QueryCapability(k) => {
                push_str(&mut out, "query_capability.");
                push_str(&mut out, query_kind_code(k));
            },
            SemanticCoverageCapabilityId::ImpactPropagation(k) => {
                push_str(&mut out, "impact_propagation.");
                push_str(&mut out, edge_kind_code(k));
            },
        }
        out
    }
}

/// The first `n` evidence items in declaration order that occur in `es`.
pub open spec fn present_evidence(es: Seq<SemanticCoverageEvidence>, n: nat) -> Seq<SemanticCoverageEvidence>
    decreases n,
{
    if n == 0 {
        Seq::empty()
    } else {
        let rest = present_evidence(es, (n - 1) as nat);
        let e = evidence_at(n - 1);
        if es.contains(e) {
            rest.push(e)
        } else {
            rest
        }
    }
}

/// Evidence as an ordered set: declaration order, no repeats.
pub open spec fn evidence_set(es: Seq<SemanticCoverageEvidence>) -> Seq<SemanticCoverageEvidence> {
    present_evidence(es, 22)
}

/// The items of `required` that `present` lacks, in order.
pub open spec fn evidence_missing(
    required: Seq<SemanticCoverageEvidence>,
    present: Seq<SemanticCoverageEvidence>,
) -> Seq<SemanticCoverageEvidence>
    decreases required.len(),
{
    if required.len() == 0 {
        Seq::empty()
    } else {
        let rest = evidence_missing(required.drop_last(), present);
        if present.contains(required.last()) {
            rest
        } else {
            rest.push(required.last())
        }
    }
}

/// `t` added to an ordered list of texts, kept ordered without repeats.
pub open spec fn texts_with(list: Seq<Seq<char>>, t: Seq<char>) -> Seq<Seq<char>> {
    values_of(sorted_unique(list.push(t).map_values(|x: Seq<char>| ((x, Seq::<char>::empty()), x))))
}

/// Whether `es` holds `e`.
fn evidence_contains(es: &[SemanticCoverageEvidence], e: SemanticCoverageEvidence) -> (r: bool)
    ensures
        r == es@.contains(e),
{
    let mut i: usize = 0;
    while i < es.len()
        invariant
            i <= es@.len(),
            forall|j: int| 0 <= j < i ==> es@[j] != e,
        decreases es@.len() - i,
    {
        if es[i] == e {
            return true;
        }
        i = i + 1;
    }
    false
}

/// Evidence as an ordered set.
fn evidence_set_of(es: Vec<SemanticCoverageEvidence>) -> (r: Vec<SemanticCoverageEvidence>)
    ensures
        r@ == evidence_set(es@),
{
    let mut out: Vec<SemanticCoverageEvidence> = Vec::new();
    let mut i: usize = 0;
    while i < 22
        invariant
            i <= 22,
            out@ == present_evidence(es@, i as nat),
        decreases 22 - i,
    {
        let e = evidence_at_position(i);
        if evidence_contains(es.as_slice(), e) {
            out.push(e);
        }
        i = i + 1;
    }
    out
}

/// Views of texts.
pub open spec fn text_views(v: Seq<String>) -> Seq<Seq<char>> {
    v.map_values(|t: String| t@)
}

/// Adds `t` to an ordered list of texts, keeping it ordered without repeats.
fn with_text(list: Vec<String>, t: String) -> (r: Vec<String>)
    ensures
        text_views(r@) == texts_with(text_views(list@), t@),
{
    let ghost all = text_views(list@).push(t@);
    let ghost keyed = all.map_values(|x: Seq<char>| ((x, Seq::<char>::empty()), x));
    let mut rest = list;
    rest.push(t);
    assert(text_views(rest@) =~= all);
    let mut items: Vec<Keyed<String>> = Vec::new();
    let total = rest.len();
    while rest.len() > 0
        invariant
            items@.len() + rest@.len() == total,
            total == all.len(),
            keyed == all.map_values(|x: Seq<char>| ((x, Seq::<char>::empty()), x)),
            text_views(rest@) == all.skip(items@.len() as int),
            keyed_views(items@) == keyed.take(items@.len() as int),
        decreases rest@.len(),
    {
        let ghost before = rest@;
        let ghost n: int = items@.len() as int;
        let x = rest.remove(0);
        assert(text_views(rest@) =~= all.skip(n + 1)) by {
            assert forall|j: int| 0 <= j < rest@.len() implies text_views(rest@)[j] == all.skip(n + 1)[j] by {
                assert(rest@[j] == before[j + 1]);
                assert(text_views(before)[j + 1] == all.skip(n)[j + 1]);
            }
        }
        assert(text_views(before)[0] == all[n]);
        let first = x.clone();
        let ghost done = items@;
        items.push(Keyed { first, second: String::new(), value: x });
        assert(keyed.take(n + 1) =~= keyed.take(n).push(keyed[n]));
        assert(keyed_views(items@) =~= keyed_views(done).push(keyed[n]));
    }
    assert(keyed.take(total as int) =~= keyed);
    let sorted = sort_unique(items);
    let r = into_values(sorted);
    assert(text_views(r@) =~= r@.map_values(|v: String| v@));
    r
}

/// One read-only static capability descriptor.
#[derive(Debug, Clone, PartialEq, Eq)]
pub struct SemanticCoverageCapability {
    id: SemanticCoverageCapabilityId,
    title: String,
    status: SemanticCoverageStatus,
    evidence: Vec<SemanticCoverageEvidence>,
    required_evidence: Vec<SemanticCoverageEvidence>,
    limitations: Vec<String>,
    related_node_kind: Option<NodeKind>,
    related_edge_kind: Option<EdgeKind>,
    source_metadata_kind: Option<MetadataKind>,
    representative_tests: Vec<String>,
    notes: Vec<String>,
}

/// Capability view: identity, title, status, evidence, required evidence,
/// limitations, related node kind, related edge kind, source metadata kind,
/// representative tests, notes.
pub type CapabilityView = (
    SemanticCoverageCapabilityId,
    Seq<char>,
    SemanticCoverageStatus,
    Seq<SemanticCoverageEvidence>,
    Seq<SemanticCoverageEvidence>,
    Seq<Seq<char>>,
    Option<NodeKind>,
    Option<EdgeKind>,
    Option<MetadataKind>,
    Seq<Seq<char>>,
    Seq<Seq<char>>,
);

impl View for SemanticCoverageCapability {
    type V = CapabilityView;

    closed spec fn view(&self) -> CapabilityView {
        (
            self.id,
            self.title@,
            self.status,
            self.evidence@,
            self.required_evidence@,
            text_views(self.limitations@),
            self.related_node_kind,
            self.related_edge_kind,
            self.source_metadata_kind,
            text_views(self.representative_tests@),
            text_views(self.notes@),
        )
    }
}

impl SemanticCoverageCapability {
    /// Creates a typed capability descriptor; evidence and required
    /// evidence become ordered sets.
    pub fn new(
        id: SemanticCoverageCapabilityId,
        title: String,
        status: SemanticCoverageStatus,
        evidence: Vec<SemanticCoverageEvidence>,
        required_evidence: Vec<SemanticCoverageEvidence>,
    ) -> (r: Self)
        ensures
            r@ == (
                id,
                title@,
                status,
                evidence_set(evidence@),
                evidence_set(required_evidence@),
                Seq::<Seq<char>>::empty(),
                None::<NodeKind>,
                None::<EdgeKind>,
                None::<MetadataKind>,
                Seq::<Seq<char>>::empty(),
                Seq::<Seq<char>>::empty(),
            ),
    {
        let r = SemanticCoverageCapability {
            id,
            title,
            status,
            evidence: evidence_set_of(evidence),
            required_evidence: evidence_set_of(required_evidence),
            limitations: Vec::new(),
            related_node_kind: None,
            related_edge_kind: None,
            source_metadata_kind: None,
            representative_tests: Vec::new(),
            notes: Vec::new(),
        };
        assert(text_views(r.limitations@) =~= Seq::<Seq<char>>::empty());
        assert(text_views(r.representative_tests@) =~= Seq::<Seq<char>>::empty());
        assert(text_views(r.notes@) =~= Seq::<Seq<char>>::empty());
        r
    }

    /// Associates a node kind with this capability.
    pub fn with_node_kind(self, kind: NodeKind) -> (r: Self)
        ensures
            r@ == (self@.0, self@.1, self@.2, self@.3, self@.4, self@.5, Some(kind), self@.7, self@.8, self@.9, self@.10),
    {
        let mut c = self;
        c.related_node_kind = Some(kind);
        c
    }

    /// Associates an edge kind with this capability.
    pub fn with_edge_kind(self, kind: EdgeKind) -> (r: Self)
        ensures
            r@ == (self@.0, self@.1, self@.2, self@.3, self@.4, self@.5, self@.6, Some(kind), self@.8, self@.9, self@.10),
    {
        let mut c = self;
        c.related_edge_kind = Some(kind);
        c
    }

    /// Associates a source metadata kind with this capability.
    pub fn with_metadata_kind(self, kind: MetadataKind) -> (r: Self)
        ensures
            r@ == (self@.0, self@.1, self@.2, self@.3, self@.4, self@.5, self@.6, self@.7, Some(kind), self@.9, self@.10),
    {
        let mut c = self;
        c.source_metadata_kind = Some(kind);
        c
    }

    /// Adds a known limitation; limitations stay ordered without repeats.
    pub fn with_limitation(self, limitation: String) -> (r: Self)
        ensures
            r@ == (
                self@.0,
                self@.1,
                self@.2,
                self@.3,
                self@.4,
                texts_with(self@.5, limitation@),
                self@.6,
                self@.7,
                self@.8,
                self@.9,
                self@.10,
            ),
    {
        let SemanticCoverageCapability {
            id,
            title,
            status,
            evidence,
            required_evidence,
            limitations,
            related_node_kind,
            related_edge_kind,
            source_metadata_kind,
            representative_tests,
            notes,
        } = self;
        SemanticCoverageCapability {
            id,
            title,
            status,
            evidence,
            required_evidence,
            limitations: with_text(limitations, limitation),
            related_node_kind,
            related_edge_kind,
            source_metadata_kind,
            representative_tests,
            notes,
        }
    }

    /// Adds a stable representative test reference; references stay ordered
    /// without repeats.
    pub fn with_representative_test(self, test: String) -> (r: Self)
        ensures
            r@ == (
                self@.0,
                self@.1,
                self@.2,
                self@.3,
                self@.4,
                self@.5,
                self@.6,
                self@.7,
                self@.8,
                texts_with(self@.9, test@),
                self@.10,
            ),
    {
        let SemanticCoverageCapability {
            id,
            title,
            status,
            evidence,
            required_evidence,
            limitations,
            related_node_kind,
            related_edge_kind,
            source_metadata_kind,
            representative_tests,
            notes,
        } = self;
        SemanticCoverageCapability {
            id,
            title,
            status,
            evidence,
            required_evidence,
            limitations,
            related_node_kind,
            related_edge_kind,
            source_metadata_kind,
            representative_tests: with_text(representative_tests, test),
            notes,
        }
    }

    /// Adds a human-readable note that does not affect identity or status;
    /// notes stay ordered without repeats.
    pub fn with_note(self, note: String) -> (r: Self)
        ensures
            r@ == (
                self@.0,
                self@.1,
                self@.2,
                self@.3,
                self@.4,
                self@.5,
                self@.6,
                self@.7,
                self@.8,
                self@.9,
                texts_with(self@.10, note@),
            ),
    {
        let SemanticCoverageCapability {
            id,
            title,
            status,
            evidence,
            required_evidence,
            limitations,
            related_node_kind,
            related_edge_kind,
            source_metadata_kind,
            representative_tests,
            notes,
        } = self;
        SemanticCoverageCapability {
            id,
            title,
            status,
            evidence,
            required_evidence,
            limitations,
            related_node_kind,
            related_edge_kind,
            source_metadata_kind,
            representative_tests,
            notes: with_text(notes, note),
        }
    }

    /// Returns the typed identity.
    pub fn id(&self) -> (r: SemanticCoverageCapabilityId)
        ensures
            r == self@.0,
    {
        self.id
    }

    /// Returns the stable identifier.
    pub fn stable_id(&self) -> (r: String)
        ensures
            r@ == capability_id_text(self@.0),
    {
        self.id.as_str()
    }

    /// Returns the category derived from the identity.
    pub fn category(&self) -> (r: SemanticCoverageCategory)
        ensures
            r == id_category(self@.0),
    {
        self.id.category()
    }

    /// Returns the human-readable title.
    pub fn title(&self) -> (r: &str)
        ensures
            r@ == self@.1,
    {
        self.title.as_str()
    }

    /// Returns the static support status.
    pub fn status(&self) -> (r: SemanticCoverageStatus)
        ensures
            r == self@.2,
    {
        self.status
    }

    /// Returns ordered typed evidence.
    pub fn evidence(&self) -> (r: &[SemanticCoverageEvidence])
        ensures
            r@ == self@.3,
    {
        self.evidence.as_slice()
    }

    /// Returns ordered required evidence.
    pub fn required_evidence(&self) -> (r: &[SemanticCoverageEvidence])
        ensures
            r@ == self@.4,
    {
        self.required_evidence.as_slice()
    }

    /// Returns missing required evidence, in order.
    pub fn missing_evidence(&self) -> (r: Vec<SemanticCoverageEvidence>)
        ensures
            r@ == evidence_missing(self@.4, self@.3),
    {
        let ghost req = self@.4;
        let mut out: Vec<SemanticCoverageEvidence> = Vec::new();
        let mut i: usize = 0;
        while i < self.required_evidence.len()
            invariant
                i <= self.required_evidence@.len(),
                req == self.required_evidence@,
                out@ == evidence_missing(req.take(i as int), self.evidence@),
            decreases self.required_evidence@.len() - i,
        {
            let e = self.required_evidence[i];
            assert(req.take(i + 1).drop_last() =~= req.take(i as int));
            if !evidence_contains(self.evidence.as_slice(), e) {
                out.push(e);
            }
            i = i + 1;
        }
        assert(req.take(i as int) =~= req);
        out
    }

    /// Returns known limitations.
    pub fn limitations(&self) -> (r: &[String])
        ensures
            text_views(r@) == self@.5,
    {
        self.limitations.as_slice()
    }

    /// Returns the related node kind.
    pub fn related_node_kind(&self) -> (r: Option<NodeKind>)
        ensures
            r == self@.6,
    {
        self.related_node_kind
    }

    /// Returns the related edge kind.
    pub fn related_edge_kind(&self) -> (r: Option<EdgeKind>)
        ensures
            r == self@.7,
    {
        self.related_edge_kind
    }

    /// Returns the source metadata kind.
    pub fn source_metadata_kind(&self) -> (r: Option<MetadataKind>)
        ensures
            r == self@.8,
    {
        self.source_metadata_kind
    }

    /// Returns representative test references.
    pub fn representative_tests(&self) -> (r: &[String])
        ensures
            text_views(r@) == self@.9,
    {
        self.representative_tests.as_slice()
    }

    /// Returns human-readable notes.
    pub fn notes(&self) -> (r: &[String])
        ensures
            text_views(r@) == self@.10,
    {
        self.notes.as_slice()
    }
}

/// Priority that governance assigns to a capability with `missing`
/// evidence.
pub open spec fn gap_priority_of(c: CapabilityView, missing: Seq<SemanticCoverageEvidence>) -> SemanticCoverageGapPriority {
    let cat = id_category(c.0);
    if c.0 == SemanticCoverageCapabilityId::MetadataReference(SemanticReferenceCapability::BslCall) && missing.contains(
        SemanticCoverageEvidence::DiagnosticEmitted,
    ) {
        SemanticCoverageGapPriority::Critical
    } else if missing.contains(SemanticCoverageEvidence::ProvenanceAttached) && (c.3.contains(
        SemanticCoverageEvidence::NodeEmitted,
    ) || c.3.contains(SemanticCoverageEvidence::SemanticEdgeEmitted)) {
        SemanticCoverageGapPriority::Critical
    } else if (cat == SemanticCoverageCategory::MetadataEntity || cat == SemanticCoverageCategory::SemanticNode || cat
        == SemanticCoverageCategory::OwnershipRelation || cat == SemanticCoverageCategory::MetadataReference || cat
        == SemanticCoverageCategory::SemanticEdge) && (c.2 == SemanticCoverageStatus::Unsupported || c.2
        == SemanticCoverageStatus::DeclaredOnly) {
        SemanticCoverageGapPriority::High
    } else if c.2 == SemanticCoverageStatus::PartiallySupported {
        SemanticCoverageGapPriority::Medium
    } else if missing.contains(SemanticCoverageEvidence::PositiveTestExists) || missing.contains(
        SemanticCoverageEvidence::NegativeTestExists,
    ) {
        SemanticCoverageGapPriority::Medium
    } else {
        SemanticCoverageGapPriority::Low
    }
}

/// Recommended next action for a capability with `missing` evidence.
pub open spec fn next_action_text(c: CapabilityView, missing: Seq<SemanticCoverageEvidence>) -> Seq<char> {
    if missing.contains(SemanticCoverageEvidence::NodeEmitted) {
        "Emit the typed node in its owning adapter and add representative integration coverage"@
    } else if missing.contains(SemanticCoverageEvidence::OwnershipEdgeEmitted) {
        "Emit and validate the owner-child edge with provenance"@
    } else if missing.contains(SemanticCoverageEvidence::ReferenceResolved) || missing.contains(
        SemanticCoverageEvidence::SemanticEdgeEmitted,
    ) {
        "Complete typed resolution and emit the resulting semantic edge"@
    } else if missing.contains(SemanticCoverageEvidence::ProvenanceAttached) {
        "Attach provenance at the fact creation site and add regression coverage"@
    } else if missing.contains(SemanticCoverageEvidence::PositiveTestExists) || missing.contains(
        SemanticCoverageEvidence::NegativeTestExists,
    ) {
        "Add the missing representative positive or negative test"@
    } else {
        "Complete missing evidence for "@ + capability_id_text(c.0)
    }
}

/// Gap view: capability identity, category, status, missing evidence,
/// priority, explanation, next action, related node kind, related edge
/// kind.
pub type GapView = (
    SemanticCoverageCapabilityId,
    SemanticCoverageCategory,
    SemanticCoverageStatus,
    Seq<SemanticCoverageEvidence>,
    SemanticCoverageGapPriority,
    Seq<char>,
    Seq<char>,
    Option<NodeKind>,
    Option<EdgeKind>,
);

/// The gap of a capability: none when it is supported with all required
/// evidence, or not applicable.
pub open spec fn gap_of(c: CapabilityView) -> Option<GapView> {
    let missing = evidence_missing(c.4, c.3);
    if (c.2 == SemanticCoverageStatus::Supported && missing.len() == 0) || c.2 == SemanticCoverageStatus::NotApplicable {
        None
    } else {
        Some(
            (
                c.0,
                id_category(c.0),
                c.2,
                missing,
                gap_priority_of(c, missing),
                if c.5.len() > 0 {
                    c.5[0]
                } else {
                    capability_id_text(c.0) + " is "@ + status_text(c.2) + " with incomplete required evidence"@
                },
                next_action_text(c, missing),
                c.6,
                c.7,
            ),
        )
    }
}

fn gap_priority(capability: &SemanticCoverageCapability, missing: &[SemanticCoverageEvidence]) -> (r:
    SemanticCoverageGapPriority)
    ensures
        r == gap_priority_of(capability@, missing@),
{
    if capability.id == SemanticCoverageCapabilityId::MetadataReference(SemanticReferenceCapability::BslCall)
        && evidence_contains(missing, SemanticCoverageEvidence::DiagnosticEmitted) {
        return SemanticCoverageGapPriority::Critical;
    }
    if evidence_contains(missing, SemanticCoverageEvidence::ProvenanceAttached) && (evidence_contains(
        capability.evidence.as_slice(),
        SemanticCoverageEvidence::NodeEmitted,
    ) || evidence_contains(capability.evidence.as_slice(), SemanticCoverageEvidence::SemanticEdgeEmitted)) {
        return SemanticCoverageGapPriority::Critical;
    }
    let core = match capability.id.category() {
        SemanticCoverageCategory::MetadataEntity | SemanticCoverageCategory::SemanticNode
        | SemanticCoverageCategory::OwnershipRelation | SemanticCoverageCategory::MetadataReference
        | SemanticCoverageCategory::SemanticEdge => true,
        _ => false,
    };
    let absent = capability.status == SemanticCoverageStatus::Unsupported || capability.status
        == SemanticCoverageStatus::DeclaredOnly;
    if core && absent {
        SemanticCoverageGapPriority::High
    } else if capability.status == SemanticCoverageStatus::PartiallySupported {
        SemanticCoverageGapPriority::Medium
    } else if evidence_contains(missing, SemanticCoverageEvidence::PositiveTestExists) || evidence_contains(
        missing,
        SemanticCoverageEvidence::NegativeTestExists,
    ) {
        SemanticCoverageGapPriority::Medium
    } else {
        SemanticCoverageGapPriority::Low
    }
}

fn suggested_next_action(capability: &SemanticCoverageCapability, missing: &[SemanticCoverageEvidence]) -> (r: String)
    ensures
        r@ == next_action_text(capability@, missing@),
{
    let mut out = String::new();
    if evidence_contains(missing, SemanticCoverageEvidence::NodeEmitted) {
        push_str(&mut out, "Emit the typed node in its owning adapter and add representative integration coverage");
    } else if evidence_contains(missing, SemanticCoverageEvidence::OwnershipEdgeEmitted) {
        push_str(&mut out, "Emit and validate the owner-child edge with provenance");
    } else if evidence_contains(missing, SemanticCoverageEvidence::ReferenceResolved) || evidence_contains(
        missing,
        SemanticCoverageEvidence::SemanticEdgeEmitted,
    ) {
        push_str(&mut out, "Complete typed resolution and emit the resulting semantic edge");
    } else if evidence_contains(missing, SemanticCoverageEvidence::ProvenanceAttached) {
        push_str(&mut out, "Attach provenance at the fact creation site and add regression coverage");
    } else if evidence_contains(missing, SemanticCoverageEvidence::PositiveTestExists) || evidence_contains(
        missing,
        SemanticCoverageEvidence::NegativeTestExists,
    ) {
        push_str(&mut out, "Add the missing representative positive or negative test");
    } else {
        push_str(&mut out, "Complete missing evidence for ");
        let id = capability.stable_id();
        push_str(&mut out, id.as_str());
    }
    out
}

/// One deterministic actionable coverage gap.
#[derive(Debug, Clone, PartialEq, Eq)]
pub struct SemanticCoverageGap {
    capability_id: SemanticCoverageCapabilityId,
    category: SemanticCoverageCategory,
    status: SemanticCoverageStatus,
    missing_evidence: Vec<SemanticCoverageEvidence>,
    priority: SemanticCoverageGapPriority,
    explanation: String,
    suggested_next_action: String,
    related_node_kind: Option<NodeKind>,
    related_edge_kind: Option<EdgeKind>,
}

impl View for SemanticCoverageGap {
    type V = GapView;

    closed spec fn view(&self) -> GapView {
        (
            self.capability_id,
            self.category,
            self.status,
            self.missing_evidence@,
            self.priority,
            self.explanation@,
            self.suggested_next_action@,
            self.related_node_kind,
            self.related_edge_kind,
        )
    }
}

impl SemanticCoverageGap {
    /// The gap of a capability, if it has one.
    pub fn from_capability(capability: &SemanticCoverageCapability) -> (r: Option<Self>)
        ensures
            match gap_of(capability@) {
                Some(g) => r matches Some(x) && x@ == g,
                None => r is None,
            },
    {
        let missing = capability.missing_evidence();
        if capability.status == SemanticCoverageStatus::Supported && missing.len() == 0 {
            return None;
        }
        if capability.status == SemanticCoverageStatus::NotApplicable {
            return None;
        }
        let priority = gap_priority(capability, missing.as_slice());
        let explanation = if capability.limitations.len() > 0 {
            assert(text_views(capability.limitations@)[0] == capability.limitations@[0]@);
            capability.limitations[0].clone()
        } else {
            let mut text = capability.stable_id();
            push_str(&mut text, " is ");
            push_str(&mut text, status_code(capability.status));
            push_str(&mut text, " with incomplete required evidence");
            text
        };
        let suggested_next_action = suggested_next_action(capability, missing.as_slice());
        Some(
            SemanticCoverageGap {
                capability_id: capability.id,
                category: capability.id.category(),
                status: capability.status,
                missing_evidence: missing,
                priority,
                explanation,
                suggested_next_action,
                related_node_kind: capability.related_node_kind,
                related_edge_kind: capability.related_edge_kind,
            },
        )
    }

    /// Returns the stable gap identity.
    pub fn stable_id(&self) -> (r: String)
        ensures
            r@ == "coverage_gap."@ + capability_id_text(self@.0),
    {
        let mut out = String::new();
        push_str(&mut out, "coverage_gap.");
        let id = self.capability_id.as_str();
        push_str(&mut out, id.as_str());
        out
    }

    /// Returns the affected capability identity.
    pub fn capability_id(&self) -> (r: SemanticCoverageCapabilityId)
        ensures
            r == self@.0,
    {
        self.capability_id
    }

    /// Returns the capability category.
    pub fn category(&self) -> (r: SemanticCoverageCategory)
        ensures
            r == self@.1,
    {
        self.category
    }

    /// Returns the current support status.
    pub fn status(&self) -> (r: SemanticCoverageStatus)
        ensures
            r == self@.2,
    {
        self.status
    }

    /// Returns ordered missing evidence.
    pub fn missing_evidence(&self) -> (r: &[SemanticCoverageEvidence])
        ensures
            r@ == self@.3,
    {
        self.missing_evidence.as_slice()
    }

    /// Returns the explicitly assigned priority.
    pub fn priority(&self) -> (r: SemanticCoverageGapPriority)
        ensures
            r == self@.4,
    {
        self.priority
    }

    /// Returns a concise explanation.
    pub fn explanation(&self) -> (r: &str)
        ensures
            r@ == self@.5,
    {
        self.explanation.as_str()
    }

    /// Returns the recommended next implementation action.
    pub fn suggested_next_action(&self) -> (r: &str)
        ensures
            r@ == self@.6,
    {
        self.suggested_next_action.as_str()
    }

    /// Returns the related node kind.
    pub fn related_node_kind(&self) -> (r: Option<NodeKind>)
        ensures
            r == self@.7,
    {
        self.related_node_kind
    }

    /// Returns the related edge kind.
    pub fn related_edge_kind(&self) -> (r: Option<EdgeKind>)
        ensures
            r == self@.8,
    {
        self.related_edge_kind
    }
}

/// Whether a capability's related kinds agree with its identity.
pub open spec fn identity_consistent(c: CapabilityView) -> bool {
    match c.0 {
        SemanticCoverageCapabilityId::MetadataEntity(k) => c.8 == Some(k) && c.6 == Some(NodeKind::Metadata(k)),
        SemanticCoverageCapabilityId::SemanticNode(k) => c.6 == Some(k) && c.7 is None,
        SemanticCoverageCapabilityId::OwnershipRelation(k) => c.6 == Some(k) && c.7 == Some(EdgeKind::Contains),
        SemanticCoverageCapabilityId::MetadataReference(_) => c.7 is Some,
        SemanticCoverageCapabilityId::SemanticEdge(k) => c.7 == Some(k),
        SemanticCoverageCapabilityId::ImpactPropagation(k) => c.7 == Some(k),
        _ => true,
    }
}

/// Whether a capability's status agrees with its evidence.
pub open spec fn status_consistent(c: CapabilityView) -> bool {
    let missing = evidence_missing(c.4, c.3);
    match c.2 {
        SemanticCoverageStatus::Supported => missing.len() == 0,
        SemanticCoverageStatus::PartiallySupported => c.3.len() > 0 && missing.len() > 0,
        SemanticCoverageStatus::Unsupported => !c.3.contains(SemanticCoverageEvidence::NodeEmitted) && !c.3.contains(
            SemanticCoverageEvidence::SemanticEdgeEmitted,
        ),
        SemanticCoverageStatus::NotApplicable => c.4.len() == 0,
        SemanticCoverageStatus::DeclaredOnly => c.3.contains(SemanticCoverageEvidence::NodeKindDeclared) || c.3.contains(
            SemanticCoverageEvidence::EdgeKindDeclared,
        ),
    }
}

fn capability_is_consistent(capability: &SemanticCoverageCapability) -> (r: bool)
    ensures
        r == (identity_consistent(capability@) && status_consistent(capability@)),
{
    let missing = capability.missing_evidence();
    let identity = match capability.id {
        SemanticCoverageCapabilityId::MetadataEntity(k) => capability.source_metadata_kind == Some(k)
            && capability.related_node_kind == Some(NodeKind::Metadata(k)),
        SemanticCoverageCapabilityId::SemanticNode(k) => capability.related_node_kind == Some(k)
            && capability.related_edge_kind.is_none(),
        SemanticCoverageCapabilityId::OwnershipRelation(k) => capability.related_node_kind == Some(k)
            && capability.related_edge_kind == Some(EdgeKind::Contains),
        SemanticCoverageCapabilityId::MetadataReference(_) => capability.related_edge_kind.is_some(),
        SemanticCoverageCapabilityId::SemanticEdge(k) => capability.related_edge_kind == Some(k),
        SemanticCoverageCapabilityId::ImpactPropagation(k) => capability.related_edge_kind == Some(k),
        _ => true,
    };
    let status = match capability.status {
        SemanticCoverageStatus::Supported => missing.len() == 0,
        SemanticCoverageStatus::PartiallySupported => capability.evidence.len() > 0 && missing.len() > 0,
        SemanticCoverageStatus::Unsupported => !evidence_contains(
            capability.evidence.as_slice(),
            SemanticCoverageEvidence::NodeEmitted,
        ) && !evidence_contains(capability.evidence.as_slice(), SemanticCoverageEvidence::SemanticEdgeEmitted),
        SemanticCoverageStatus::NotApplicable => capability.required_evidence.len() == 0,
        SemanticCoverageStatus::DeclaredOnly => evidence_contains(
            capability.evidence.as_slice(),
            SemanticCoverageEvidence::NodeKindDeclared,
        ) || evidence_contains(capability.evidence.as_slice(), SemanticCoverageEvidence::EdgeKindDeclared),
    };
    identity && status
}

/// Views of capabilities.
pub open spec fn capability_views(v: Seq<SemanticCoverageCapability>) -> Seq<CapabilityView> {
    v.map_values(|c: SemanticCoverageCapability| c@)
}

/// Views of gaps.
pub open spec fn gap_views(v: Seq<SemanticCoverageGap>) -> Seq<GapView> {
    v.map_values(|g: SemanticCoverageGap| g@)
}

/// Number of capabilities of a category.
pub open spec fn category_count(caps: Seq<CapabilityView>, cat: SemanticCoverageCategory) -> nat
    decreases caps.len(),
{
    if caps.len() == 0 {
        0
    } else {
        category_count(caps.drop_last(), cat) + if id_category(caps.last().0) == cat {
            1nat
        } else {
            0nat
        }
    }
}

/// Number of capabilities with a status.
pub open spec fn status_count(caps: Seq<CapabilityView>, status: SemanticCoverageStatus) -> nat
    decreases caps.len(),
{
    if caps.len() == 0 {
        0
    } else {
        status_count(caps.drop_last(), status) + if caps.last().2 == status {
            1nat
        } else {
            0nat
        }
    }
}

/// Number of gaps with a priority.
pub open spec fn priority_count(gaps: Seq<GapView>, p: SemanticCoverageGapPriority) -> nat
    decreases gaps.len(),
{
    if gaps.len() == 0 {
        0
    } else {
        priority_count(gaps.drop_last(), p) + if gaps.last().4 == p {
            1nat
        } else {
            0nat
        }
    }
}

/// Nonzero category counts of the first `n` categories, in order.
pub open spec fn category_counts(caps: Seq<CapabilityView>, n: nat) -> Seq<(SemanticCoverageCategory, usize)>
    decreases n,
{
    if n == 0 {
        Seq::empty()
    } else {
        let rest = category_counts(caps, (n - 1) as nat);
        let c = category_count(caps, category_at(n - 1));
        if c > 0 {
            rest.push((category_at(n - 1), c as usize))
        } else {
            rest
        }
    }
}

/// Nonzero status counts of the first `n` statuses, in order.
pub open spec fn status_counts(caps: Seq<CapabilityView>, n: nat) -> Seq<(SemanticCoverageStatus, usize)>
    decreases n,
{
    if n == 0 {
        Seq::empty()
    } else {
        let rest = status_counts(caps, (n - 1) as nat);
        let c = status_count(caps, status_at(n - 1));
        if c > 0 {
            rest.push((status_at(n - 1), c as usize))
        } else {
            rest
        }
    }
}

/// Nonzero priority counts of the first `n` priorities, in order.
pub open spec fn priority_counts(gaps: Seq<GapView>, n: nat) -> Seq<(SemanticCoverageGapPriority, usize)>
    decreases n,
{
    if n == 0 {
        Seq::empty()
    } else {
        let rest = priority_counts(gaps, (n - 1) as nat);
        let c = priority_count(gaps, priority_at(n - 1));
        if c > 0 {
            rest.push((priority_at(n - 1), c as usize))
        } else {
            rest
        }
    }
}

proof fn lemma_category_count_bound(caps: Seq<CapabilityView>, cat: SemanticCoverageCategory)
    ensures
        category_count(caps, cat) <= caps.len(),
    decreases caps.len(),
{
    if caps.len() > 0 {
        lemma_category_count_bound(caps.drop_last(), cat);
    }
}

proof fn lemma_status_count_bound(caps: Seq<CapabilityView>, status: SemanticCoverageStatus)
    ensures
        status_count(caps, status) <= caps.len(),
    decreases caps.len(),
{
    if caps.len() > 0 {
        lemma_status_count_bound(caps.drop_last(), status);
    }
}

proof fn lemma_priority_count_bound(gaps: Seq<GapView>, p: SemanticCoverageGapPriority)
    ensures
        priority_count(gaps, p) <= gaps.len(),
    decreases gaps.len(),
{
    if gaps.len() > 0 {
        lemma_priority_count_bound(gaps.drop_last(), p);
    }
}

/// Deterministic capability totals by category, support status and gap
/// priority.
#[derive(Debug, Clone, PartialEq, Eq)]
pub struct SemanticCoverageSummary {
    total: usize,
    by_category: Vec<(SemanticCoverageCategory, usize)>,
    by_status: Vec<(SemanticCoverageStatus, usize)>,
    by_gap_priority: Vec<(SemanticCoverageGapPriority, usize)>,
}

/// Summary view: total, counts by category, by status and by gap priority.
pub type SummaryView = (
    usize,
    Seq<(SemanticCoverageCategory, usize)>,
    Seq<(SemanticCoverageStatus, usize)>,
    Seq<(SemanticCoverageGapPriority, usize)>,
);

/// The summary of capabilities and their gaps.
pub open spec fn summary_of(caps: Seq<CapabilityView>, gaps: Seq<GapView>) -> SummaryView {
    (caps.len() as usize, category_counts(caps, 9), status_counts(caps, 5), priority_counts(gaps, 4))
}

impl View for SemanticCoverageSummary {
    type V = SummaryView;

    closed spec fn view(&self) -> SummaryView {
        (self.total, self.by_category@, self.by_status@, self.by_gap_priority@)
    }
}

fn count_category(caps: &[SemanticCoverageCapability], cat: SemanticCoverageCategory) -> (r: usize)
    ensures
        r == category_count(capability_views(caps@), cat),
{
    let ghost cv = capability_views(caps@);
    let mut n: usize = 0;
    let mut i: usize = 0;
    while i < caps.len()
        invariant
            i <= caps@.len(),
            cv == capability_views(caps@),
            n == category_count(cv.take(i as int), cat),
        decreases caps@.len() - i,
    {
        assert(cv.take(i + 1).drop_last() =~= cv.take(i as int));
        assert(cv.take(i + 1).last() == caps@[i as int]@);
        proof {
            lemma_category_count_bound(cv.take(i as int), cat);
        }
        if caps[i].id.category() == cat {
            n = n + 1;
        }
        i = i + 1;
    }
    assert(cv.take(i as int) =~= cv);
    n
}

fn count_status(caps: &[SemanticCoverageCapability], status: SemanticCoverageStatus) -> (r: usize)
    ensures
        r == status_count(capability_views(caps@), status),
{
    let ghost cv = capability_views(caps@);
    let mut n: usize = 0;
    let mut i: usize = 0;
    while i < caps.len()
        invariant
            i <= caps@.len(),
            cv == capability_views(caps@),
            n == status_count(cv.take(i as int), status),
        decreases caps@.len() - i,
    {
        assert(cv.take(i + 1).drop_last() =~= cv.take(i as int));
        assert(cv.take(i + 1).last() == caps@[i as int]@);
        proof {
            lemma_status_count_bound(cv.take(i as int), status);
        }
        if caps[i].status == status {
            n = n + 1;
        }
        i = i + 1;
    }
    assert(cv.take(i as int) =~= cv);
    n
}

fn count_priority(gaps: &[SemanticCoverageGap], p: SemanticCoverageGapPriority) -> (r: usize)
    ensures
        r == priority_count(gap_views(gaps@), p),
{
    let ghost gv = gap_views(gaps@);
    let mut n: usize = 0;
    let mut i: usize = 0;
    while i < gaps.len()
        invariant
            i <= gaps@.len(),
            gv == gap_views(gaps@),
            n == priority_count(gv.take(i as int), p),
        decreases gaps@.len() - i,
    {
        assert(gv.take(i + 1).drop_last() =~= gv.take(i as int));
        assert(gv.take(i + 1).last() == gaps@[i as int]@);
        proof {
            lemma_priority_count_bound(gv.take(i as int), p);
        }
        if gaps[i].priority == p {
            n = n + 1;
        }
        i = i + 1;
    }
    assert(gv.take(i as int) =~= gv);
    n
}

impl SemanticCoverageSummary {
    fn from_capabilities_and_gaps(capabilities: &[SemanticCoverageCapability], gaps: &[SemanticCoverageGap]) -> (r:
        Self)
        ensures
            r@ == summary_of(capability_views(capabilities@), gap_views(gaps@)),
    {
        let ghost cv = capability_views(capabilities@);
        let ghost gv = gap_views(gaps@);
        let mut by_category: Vec<(SemanticCoverageCategory, usize)> = Vec::new();
        let mut i: usize = 0;
        while i < 9
            invariant
                i <= 9,
                cv == capability_views(capabilities@),
                by_category@ == category_counts(cv, i as nat),
            decreases 9 - i,
        {
            let cat = category_at_position(i);
            let n = count_category(capabilities, cat);
            if n > 0 {
                by_category.push((cat, n));
            }
            i = i + 1;
        }
        let mut by_status: Vec<(SemanticCoverageStatus, usize)> = Vec::new();
        let mut i: usize = 0;
        while i < 5
            invariant
                i <= 5,
                cv == capability_views(capabilities@),
                by_status@ == status_counts(cv, i as nat),
            decreases 5 - i,
        {
            let st = status_at_position(i);
            let n = count_status(capabilities, st);
            if n > 0 {
                by_status.push((st, n));
            }
            i = i + 1;
        }
        let mut by_gap_priority: Vec<(SemanticCoverageGapPriority, usize)> = Vec::new();
        let mut i: usize = 0;
        while i < 4
            invariant
                i <= 4,
                gv == gap_views(gaps@),
                by_gap_priority@ == priority_counts(gv, i as nat),
            decreases 4 - i,
        {
            let p = priority_at_position(i);
            let n = count_priority(gaps, p);
            if n > 0 {
                by_gap_priority.push((p, n));
            }
            i = i + 1;
        }
        SemanticCoverageSummary { total: capabilities.len(), by_category, by_status, by_gap_priority }
    }

    /// Returns the total known capability count.
    pub fn total(&self) -> (r: usize)
        ensures
            r == self@.0,
    {
        self.total
    }

    /// Returns deterministic counts by category.
    pub fn by_category(&self) -> (r: &[(SemanticCoverageCategory, usize)])
        ensures
            r@ == self@.1,
    {
        self.by_category.as_slice()
    }

    /// Returns deterministic counts by support status.
    pub fn by_status(&self) -> (r: &[(SemanticCoverageStatus, usize)])
        ensures
            r@ == self@.2,
    {
        self.by_status.as_slice()
    }

    /// Returns deterministic counts by gap priority.
    pub fn by_gap_priority(&self) -> (r: &[(SemanticCoverageGapPriority, usize)])
        ensures
            r@ == self@.3,
    {
        self.by_gap_priority.as_slice()
    }
}

/// Capabilities ordered by stable identifier; equal identifiers keep their
/// order.
pub open spec fn capabilities_by_id(caps: Seq<CapabilityView>) -> Seq<CapabilityView> {
    values_of(sorted_stable(caps.map_values(|c: CapabilityView| ((capability_id_text(c.0), Seq::<char>::empty()), c))))
}

/// The gaps of capabilities, in capability order.
pub open spec fn gap_list(caps: Seq<CapabilityView>) -> Seq<GapView>
    decreases caps.len(),
{
    if caps.len() == 0 {
        Seq::empty()
    } else {
        let rest = gap_list(caps.drop_last());
        match gap_of(caps.last()) {
            Some(g) => rest.push(g),
            None => rest,
        }
    }
}

/// Key of a gap: priority, category, capability identifier.
pub open spec fn gap_key(g: GapView) -> Seq<Part> {
    seq![(priority_rank(g.4), Seq::<char>::empty()), (category_rank(g.1), Seq::<char>::empty()), (0usize, capability_id_text(g.0))]
}

/// Gaps ordered by priority, category and capability identifier; equal
/// keys keep their order.
pub open spec fn ordered_gaps(gaps: Seq<GapView>) -> Seq<GapView> {
    rank_values(rank_sorted(gaps.map_values(|g: GapView| (gap_key(g), g))))
}

/// Report view: capabilities, summary, gaps.
pub type ReportView = (Seq<CapabilityView>, SummaryView, Seq<GapView>);

/// The report of declared capabilities.
pub open spec fn report_of(caps: Seq<CapabilityView>) -> ReportView {
    let c = capabilities_by_id(caps);
    let g = ordered_gaps(gap_list(c));
    (c, summary_of(c, g), g)
}

/// The first capability with identity `id`.
pub open spec fn capability_with(caps: Seq<CapabilityView>, id: SemanticCoverageCapabilityId) -> Option<CapabilityView>
    decreases caps.len(),
{
    if caps.len() == 0 {
        None
    } else if caps[0].0 == id {
        Some(caps[0])
    } else {
        capability_with(caps.drop_first(), id)
    }
}

/// Stable identifiers that occur more than once, ordered without repeats.
pub open spec fn duplicate_id_texts(caps: Seq<CapabilityView>) -> Seq<Seq<char>>
    decreases caps.len(),
{
    if caps.len() == 0 {
        Seq::empty()
    } else {
        let rest = duplicate_id_texts(caps.drop_last());
        let t = capability_id_text(caps.last().0);
        if exists|j: int| 0 <= j < caps.len() - 1 && capability_id_text(caps[j].0) == t {
            texts_with(rest, t)
        } else {
            rest
        }
    }
}

/// Which capabilities a report query keeps.
pub enum CapabilitySelector {
    WithoutPositiveTests,
    WithoutNegativeTests,
    DeclaredOnly,
    MissingProvenance,
}

/// Whether a selector keeps a capability.
pub open spec fn keeps_capability(s: CapabilitySelector, c: CapabilityView) -> bool {
    match s {
        CapabilitySelector::WithoutPositiveTests => c.2 != SemanticCoverageStatus::NotApplicable && !c.3.contains(
            SemanticCoverageEvidence::PositiveTestExists,
        ),
        CapabilitySelector::WithoutNegativeTests => c.2 != SemanticCoverageStatus::NotApplicable && c.4.contains(
            SemanticCoverageEvidence::NegativeTestExists,
        ) && !c.3.contains(SemanticCoverageEvidence::NegativeTestExists),
        CapabilitySelector::DeclaredOnly => c.2 == SemanticCoverageStatus::DeclaredOnly,
        CapabilitySelector::MissingProvenance => c.4.contains(SemanticCoverageEvidence::ProvenanceAttached)
            && !c.3.contains(SemanticCoverageEvidence::ProvenanceAttached),
    }
}

/// The capabilities a selector keeps, in order.
pub open spec fn kept_capabilities(caps: Seq<CapabilityView>, s: CapabilitySelector) -> Seq<CapabilityView>
    decreases caps.len(),
{
    if caps.len() == 0 {
        Seq::empty()
    } else {
        let rest = kept_capabilities(caps.drop_last(), s);
        if keeps_capability(s, caps.last()) {
            rest.push(caps.last())
        } else {
            rest
        }
    }
}

/// The gaps of a priority, in order.
pub open spec fn gaps_with_priority(gaps: Seq<GapView>, p: SemanticCoverageGapPriority) -> Seq<GapView>
    decreases gaps.len(),
{
    if gaps.len() == 0 {
        Seq::empty()
    } else {
        let rest = gaps_with_priority(gaps.drop_last(), p);
        if gaps.last().4 == p {
            rest.push(gaps.last())
        } else {
            rest
        }
    }
}

/// Whether registry and derived report invariants hold: identifiers are
/// unique and ordered, the total matches, every capability is consistent,
/// and every gap names a capability and lacks evidence or is declared-only
/// or unsupported.
pub open spec fn report_consistent(r: ReportView) -> bool {
    &&& duplicate_id_texts(r.0).len() == 0
    &&& r.1.0 == r.0.len()
    &&& forall|i: int|
        0 <= i < r.0.len() - 1 ==> !lex_lt(capability_id_text(r.0[i + 1].0), capability_id_text(#[trigger] r.0[i].0))
    &&& forall|i: int| 0 <= i < r.0.len() ==> identity_consistent(#[trigger] r.0[i]) && status_consistent(r.0[i])
    &&& forall|i: int|
        0 <= i < r.2.len() ==> capability_with(r.0, (#[trigger] r.2[i]).0) is Some && (r.2[i].3.len() > 0 || r.2[i].2
            == SemanticCoverageStatus::DeclaredOnly || r.2[i].2 == SemanticCoverageStatus::Unsupported)
}

/// Views of capability references.
pub open spec fn capability_ref_views(v: Seq<&SemanticCoverageCapability>) -> Seq<CapabilityView> {
    v.map_values(|c: &SemanticCoverageCapability| c@)
}

/// Views of gap references.
pub open spec fn gap_ref_views(v: Seq<&SemanticCoverageGap>) -> Seq<GapView> {
    v.map_values(|g: &SemanticCoverageGap| g@)
}

/// Owned deterministic static capability matrix and derived gaps.
#[derive(Debug, Clone, PartialEq, Eq)]
pub struct SemanticCoverageReport {
    capabilities: Vec<SemanticCoverageCapability>,
    summary: SemanticCoverageSummary,
    gaps: Vec<SemanticCoverageGap>,
}

impl View for SemanticCoverageReport {
    type V = ReportView;

    closed spec fn view(&self) -> ReportView {
        (capability_views(self.capabilities@), self.summary@, gap_views(self.gaps@))
    }
}

/// Moves capabilities into stable-identifier order.
fn sort_capabilities(capabilities: Vec<SemanticCoverageCapability>) -> (r: Vec<SemanticCoverageCapability>)
    ensures
        capability_views(r@) == capabilities_by_id(capability_views(capabilities@)),
{
    let ghost all = capability_views(capabilities@);
    let ghost keyed = all.map_values(|c: CapabilityView| ((capability_id_text(c.0), Seq::<char>::empty()), c));
    let mut rest = capabilities;
    let mut items: Vec<Keyed<SemanticCoverageCapability>> = Vec::new();
    let total = rest.len();
    while rest.len() > 0
        invariant
            items@.len() + rest@.len() == total,
            total == all.len(),
            keyed == all.map_values(|c: CapabilityView| ((capability_id_text(c.0), Seq::<char>::empty()), c)),
            capability_views(rest@) == all.skip(items@.len() as int),
            keyed_views(items@) == keyed.take(items@.len() as int),
        decreases rest@.len(),
    {
        let ghost before = rest@;
        let ghost n: int = items@.len() as int;
        let c = rest.remove(0);
        assert(capability_views(rest@) =~= all.skip(n + 1)) by {
            assert forall|j: int| 0 <= j < rest@.len() implies capability_views(rest@)[j] == all.skip(n + 1)[j] by {
                assert(rest@[j] == before[j + 1]);
                assert(capability_views(before)[j + 1] == all.skip(n)[j + 1]);
            }
        }
        assert(capability_views(before)[0] == all[n]);
        let first = c.stable_id();
        let ghost done = items@;
        items.push(Keyed { first, second: String::new(), value: c });
        assert(keyed.take(n + 1) =~= keyed.take(n).push(keyed[n]));
        assert(keyed_views(items@) =~= keyed_views(done).push(keyed[n]));
    }
    assert(keyed.take(total as int) =~= keyed);
    let sorted = sort_stable(items);
    let r = into_values(sorted);
    assert(capability_views(r@) =~= r@.map_values(|v: SemanticCoverageCapability| v@));
    r
}

/// Moves gaps into priority, category and identifier order.
fn sort_gaps(gaps: Vec<SemanticCoverageGap>) -> (r: Vec<SemanticCoverageGap>)
    ensures
        gap_views(r@) == ordered_gaps(gap_views(gaps@)),
{
    let ghost all = gap_views(gaps@);
    let ghost keyed = all.map_values(|g: GapView| (gap_key(g), g));
    let mut rest = gaps;
    let mut items: Vec<Ranked<SemanticCoverageGap>> = Vec::new();
    let total = rest.len();
    while rest.len() > 0
        invariant
            items@.len() + rest@.len() == total,
            total == all.len(),
            keyed == all.map_values(|g: GapView| (gap_key(g), g)),
            gap_views(rest@) == all.skip(items@.len() as int),
            ranked_views(items@) == keyed.take(items@.len() as int),
        decreases rest@.len(),
    {
        let ghost before = rest@;
        let ghost n: int = items@.len() as int;
        let g = rest.remove(0);
        assert(gap_views(rest@) =~= all.skip(n + 1)) by {
            assert forall|j: int| 0 <= j < rest@.len() implies gap_views(rest@)[j] == all.skip(n + 1)[j] by {
                assert(rest@[j] == before[j + 1]);
                assert(gap_views(before)[j + 1] == all.skip(n)[j + 1]);
            }
        }
        assert(gap_views(before)[0] == all[n]);
        let mut key: Vec<(usize, String)> = Vec::new();
        push_number(&mut key, priority_rank_of(g.priority));
        push_number(&mut key, category_rank_of(g.category));
        let id = g.capability_id.as_str();
        push_part(&mut key, 0, id.as_str());
        assert(key_view(key@) =~= gap_key(g@));
        let ghost done = items@;
        items.push(Ranked { key, value: g });
        assert(keyed.take(n + 1) =~= keyed.take(n).push(keyed[n]));
        assert(ranked_views(items@) =~= ranked_views(done).push(keyed[n]));
    }
    assert(keyed.take(total as int) =~= keyed);
    let sorted = rank_sort(items);
    let r = ranked_values(sorted);
    assert(gap_views(r@) =~= r@.map_values(|v: SemanticCoverageGap| v@));
    r
}

impl SemanticCoverageReport {
    /// Builds a report from declared capability descriptors: capabilities
    /// in stable-identifier order, their gaps ordered by priority, category
    /// and identifier, and the summary of both.
    pub fn from_capabilities(capabilities: Vec<SemanticCoverageCapability>) -> (r: Self)
        ensures
            r@ == report_of(capability_views(capabilities@)),
    {
        let capabilities = sort_capabilities(capabilities);
        let ghost cv = capability_views(capabilities@);
        let mut gaps: Vec<SemanticCoverageGap> = Vec::new();
        let mut i: usize = 0;
        while i < capabilities.len()
            invariant
                i <= capabilities@.len(),
                cv == capability_views(capabilities@),
                gap_views(gaps@) == gap_list(cv.take(i as int)),
            decreases capabilities@.len() - i,
        {
            assert(cv.take(i + 1).drop_last() =~= cv.take(i as int));
            assert(cv.take(i + 1).last() == capabilities@[i as int]@);
            let ghost before = gaps@;
            match SemanticCoverageGap::from_capability(&capabilities[i]) {
                Some(g) => {
                    gaps.push(g);
                    assert(gap_views(gaps@) =~= gap_views(before).push(gaps@[gaps@.len() - 1]@));
                },
                None => {},
            }
            i = i + 1;
        }
        assert(cv.take(i as int) =~= cv);
        let gaps = sort_gaps(gaps);
        let summary = SemanticCoverageSummary::from_capabilities_and_gaps(capabilities.as_slice(), gaps.as_slice());
        SemanticCoverageReport { capabilities, summary, gaps }
    }

    /// Returns capabilities ordered by stable identity.
    pub fn capabilities(&self) -> (r: &[SemanticCoverageCapability])
        ensures
            capability_views(r@) == self@.0,
    {
        self.capabilities.as_slice()
    }

    /// Returns summary counters.
    pub fn summary(&self) -> (r: &SemanticCoverageSummary)
        ensures
            r@ == self@.1,
    {
        &self.summary
    }

    /// Returns gaps ordered by priority, category and capability identity.
    pub fn gaps(&self) -> (r: &[SemanticCoverageGap])
        ensures
            gap_views(r@) == self@.2,
    {
        self.gaps.as_slice()
    }

    /// Returns the first capability with typed identity `id`.
    pub fn capability(&self, id: SemanticCoverageCapabilityId) -> (r: Option<&SemanticCoverageCapability>)
        ensures
            match capability_with(self@.0, id) {
                Some(c) => r matches Some(x) && x@ == c,
                None => r is None,
            },
    {
        let ghost cv = self@.0;
        let mut i: usize = 0;
        assert(cv.skip(0) =~= cv);
        while i < self.capabilities.len()
            invariant
                i <= self.capabilities@.len(),
                cv == capability_views(self.capabilities@),
                capability_with(cv, id) == capability_with(cv.skip(i as int), id),
            decreases self.capabilities@.len() - i,
        {
            assert(cv.skip(i as int).drop_first() =~= cv.skip(i + 1));
            assert(cv.skip(i as int)[0] == self.capabilities@[i as int]@);
            if self.capabilities[i].id == id {
                return Some(&self.capabilities[i]);
            }
            i = i + 1;
        }
        None
    }

    /// Returns duplicate stable capability identities, ordered without
    /// repeats.
    pub fn duplicate_ids(&self) -> (r: Vec<String>)
        ensures
            text_views(r@) == duplicate_id_texts(self@.0),
    {
        let ghost cv = self@.0;
        let mut out: Vec<String> = Vec::new();
        let mut i: usize = 0;
        while i < self.capabilities.len()
            invariant
                i <= self.capabilities@.len(),
                cv == capability_views(self.capabilities@),
                text_views(out@) == duplicate_id_texts(cv.take(i as int)),
            decreases self.capabilities@.len() - i,
        {
            let ghost prefix = cv.take(i + 1);
            assert(prefix.drop_last() =~= cv.take(i as int));
            assert(prefix.last() == self.capabilities@[i as int]@);
            let id = self.capabilities[i].stable_id();
            let mut seen = false;
            let mut j: usize = 0;
            while j < i
                invariant
                    j <= i,
                    i < self.capabilities@.len(),
                    cv == capability_views(self.capabilities@),
                    prefix == cv.take(i + 1),
                    id@ == capability_id_text(prefix.last().0),
                    seen == exists|k: int| 0 <= k < j && capability_id_text(prefix[k].0) == id@,
                decreases i - j,
            {
                assert(prefix[j as int] == self.capabilities@[j as int]@);
                let other = self.capabilities[j].stable_id();
                if text_equal(other.as_str(), id.as_str()) {
                    seen = true;
                }
                j = j + 1;
            }
            if seen {
                out = with_text(out, id);
            }
            i = i + 1;
        }
        assert(cv.take(i as int) =~= cv);
        out
    }

    fn select(&self, s: CapabilitySelectorFilter) -> (r: Vec<&SemanticCoverageCapability>)
        ensures
            capability_ref_views(r@) == kept_capabilities(self@.0, selector_of(s)),
    {
        let ghost cv = self@.0;
        let mut out: Vec<&SemanticCoverageCapability> = Vec::new();
        let mut i: usize = 0;
        while i < self.capabilities.len()
            invariant
                i <= self.capabilities@.len(),
                cv == capability_views(self.capabilities@),
                capability_ref_views(out@) == kept_capabilities(cv.take(i as int), selector_of(s)),
            decreases self.capabilities@.len() - i,
        {
            let c = &self.capabilities[i];
            assert(cv.take(i + 1).drop_last() =~= cv.take(i as int));
            assert(cv.take(i + 1).last() == c@);
            let ghost before = out@;
            if capability_kept(s, c) {
                out.push(c);
                assert(capability_ref_views(out@) =~= capability_ref_views(before).push(c@));
            }
            i = i + 1;
        }
        assert(cv.take(i as int) =~= cv);
        out
    }

    /// Returns capabilities without representative positive test evidence.
    pub fn capabilities_without_positive_tests(&self) -> (r: Vec<&SemanticCoverageCapability>)
        ensures
            capability_ref_views(r@) == kept_capabilities(self@.0, CapabilitySelector::WithoutPositiveTests),
    {
        self.select(CapabilitySelectorFilter::WithoutPositiveTests)
    }

    /// Returns capabilities without representative negative test evidence.
    pub fn capabilities_without_negative_tests(&self) -> (r: Vec<&SemanticCoverageCapability>)
        ensures
            capability_ref_views(r@) == kept_capabilities(self@.0, CapabilitySelector::WithoutNegativeTests),
    {
        self.select(CapabilitySelectorFilter::WithoutNegativeTests)
    }

    /// Returns declared model capabilities not emitted by the audited
    /// pipeline.
    pub fn declared_but_unused(&self) -> (r: Vec<&SemanticCoverageCapability>)
        ensures
            capability_ref_views(r@) == kept_capabilities(self@.0, CapabilitySelector::DeclaredOnly),
    {
        self.select(CapabilitySelectorFilter::DeclaredOnly)
    }

    /// Returns capabilities that require but lack provenance evidence.
    pub fn capabilities_missing_provenance(&self) -> (r: Vec<&SemanticCoverageCapability>)
        ensures
            capability_ref_views(r@) == kept_capabilities(self@.0, CapabilitySelector::MissingProvenance),
    {
        self.select(CapabilitySelectorFilter::MissingProvenance)
    }

    /// Returns gaps of one priority in existing deterministic order.
    pub fn gaps_by_priority(&self, priority: SemanticCoverageGapPriority) -> (r: Vec<&SemanticCoverageGap>)
        ensures
            gap_ref_views(r@) == gaps_with_priority(self@.2, priority),
    {
        let ghost gv = self@.2;
        let mut out: Vec<&SemanticCoverageGap> = Vec::new();
        let mut i: usize = 0;
        while i < self.gaps.len()
            invariant
                i <= self.gaps@.len(),
                gv == gap_views(self.gaps@),
                gap_ref_views(out@) == gaps_with_priority(gv.take(i as int), priority),
            decreases self.gaps@.len() - i,
        {
            let g = &self.gaps[i];
            assert(gv.take(i + 1).drop_last() =~= gv.take(i as int));
            assert(gv.take(i + 1).last() == g@);
            let ghost before = out@;
            if g.priority == priority {
                out.push(g);
                assert(gap_ref_views(out@) =~= gap_ref_views(before).push(g@));
            }
            i = i + 1;
        }
        assert(gv.take(i as int) =~= gv);
        out
    }
}

impl SemanticCoverageReport {
    /// Returns whether registry and derived report invariants hold.
    pub fn is_consistent(&self) -> (r: bool)
        ensures
            r == report_consistent(self@),
    {
        let ghost rv = self@;
        let duplicates = self.duplicate_ids();
        if duplicates.len() != 0 {
            assert(text_views(duplicates@).len() != 0);
            return false;
        }
        assert(text_views(duplicates@).len() == 0);
        if self.summary.total != self.capabilities.len() {
            return false;
        }
        let n = self.capabilities.len();
        let mut i: usize = 0;
        while i < n
            invariant
                n == self.capabilities@.len(),
                rv == self@,
                i <= n,
                forall|k: int|
                    0 <= k < i && k + 1 < n ==> !lex_lt(
                        capability_id_text(rv.0[k + 1].0),
                        capability_id_text(#[trigger] rv.0[k].0),
                    ),
            decreases n - i,
        {
            if i + 1 < n {
                assert(rv.0[i as int] == self.capabilities@[i as int]@);
                assert(rv.0[i + 1] == self.capabilities@[i + 1]@);
                let a = self.capabilities[i].stable_id();
                let b = self.capabilities[i + 1].stable_id();
                if text_less(b.as_str(), a.as_str()) {
                    return false;
                }
            }
            i = i + 1;
        }
        let mut j: usize = 0;
        while j < n
            invariant
                n == self.capabilities@.len(),
                rv == self@,
                j <= n,
                forall|k: int| 0 <= k < j ==> identity_consistent(#[trigger] rv.0[k]) && status_consistent(rv.0[k]),
            decreases n - j,
        {
            assert(rv.0[j as int] == self.capabilities@[j as int]@);
            if !capability_is_consistent(&self.capabilities[j]) {
                return false;
            }
            j = j + 1;
        }
        let mut g: usize = 0;
        while g < self.gaps.len()
            invariant
                g <= self.gaps@.len(),
                rv == self@,
                forall|k: int|
                    0 <= k < g ==> capability_with(rv.0, (#[trigger] rv.2[k]).0) is Some && (rv.2[k].3.len() > 0
                        || rv.2[k].2 == SemanticCoverageStatus::DeclaredOnly || rv.2[k].2
                        == SemanticCoverageStatus::Unsupported),
            decreases self.gaps@.len() - g,
        {
            let gap = &self.gaps[g];
            assert(rv.2[g as int] == gap@);
            if self.capability(gap.capability_id).is_none() {
                return false;
            }
            if !(gap.missing_evidence.len() > 0 || gap.status == SemanticCoverageStatus::DeclaredOnly || gap.status
                == SemanticCoverageStatus::Unsupported) {
                return false;
            }
            g = g + 1;
        }
        true
    }
}

/// An executable capability filter.
#[derive(Clone, Copy)]
enum CapabilitySelectorFilter {
    WithoutPositiveTests,
    WithoutNegativeTests,
    DeclaredOnly,
    MissingProvenance,
}

spec fn selector_of(f: CapabilitySelectorFilter) -> CapabilitySelector {
    match f {
        CapabilitySelectorFilter::WithoutPositiveTests => CapabilitySelector::WithoutPositiveTests,
        CapabilitySelectorFilter::WithoutNegativeTests => CapabilitySelector::WithoutNegativeTests,
        CapabilitySelectorFilter::DeclaredOnly => CapabilitySelector::DeclaredOnly,
        CapabilitySelectorFilter::MissingProvenance => CapabilitySelector::MissingProvenance,
    }
}

fn capability_kept(f: CapabilitySelectorFilter, c: &SemanticCoverageCapability) -> (r: bool)
    ensures
        r == keeps_capability(selector_of(f), c@),
{
    match f {
        CapabilitySelectorFilter::WithoutPositiveTests => c.status != SemanticCoverageStatus::NotApplicable
            && !evidence_contains(c.evidence.as_slice(), SemanticCoverageEvidence::PositiveTestExists),
        CapabilitySelectorFilter::WithoutNegativeTests => c.status != SemanticCoverageStatus::NotApplicable
            && evidence_contains(c.required_evidence.as_slice(), SemanticCoverageEvidence::NegativeTestExists)
            && !evidence_contains(c.evidence.as_slice(), SemanticCoverageEvidence::NegativeTestExists),
        CapabilitySelectorFilter::DeclaredOnly => c.status == SemanticCoverageStatus::DeclaredOnly,
        CapabilitySelectorFilter::MissingProvenance => evidence_contains(
            c.required_evidence.as_slice(),
            SemanticCoverageEvidence::ProvenanceAttached,
        ) && !evidence_contains(c.evidence.as_slice(), SemanticCoverageEvidence::ProvenanceAttached),
    }
}

/// Node kinds of the coverage registry: the metadata kinds, then the
/// other kinds the registry audits.
pub open spec fn coverage_node_kind_at(i: int) -> NodeKind {
    if i < 24 {
        NodeKind::Metadata(metadata_kind_at(i))
    } else {
        registry_node_kind_at(i - 24)
    }
}

/// Node kinds other than metadata, in declaration order.
pub open spec fn registry_node_kind_at(i: int) -> NodeKind {
    if i == 0 {
        NodeKind::Module
    } else if i == 1 {
        NodeKind::Procedure
    } else if i == 2 {
        NodeKind::Function
    } else if i == 3 {
        NodeKind::Query
    } else if i == 4 {
        NodeKind::DataCompositionSchema
    } else if i == 5 {
        NodeKind::DataSet
    } else if i == 6 {
        NodeKind::DataCompositionField
    } else if i == 7 {
        NodeKind::Form
    } else if i == 8 {
        NodeKind::Command
    } else if i == 9 {
        NodeKind::Attribute
    } else if i == 10 {
        NodeKind::StandardAttribute
    } else if i == 11 {
        NodeKind::TabularSection
    } else if i == 12 {
        NodeKind::Dimension
    } else if i == 13 {
        NodeKind::Resource
    } else if i == 14 {
        NodeKind::Measure
    } else if i == 15 {
        NodeKind::Role
    } else if i == 16 {
        NodeKind::AccessRight
    } else if i == 17 {
        NodeKind::Subsystem
    } else {
        NodeKind::Unknown
    }
}

fn registry_node_kind_at_position(i: usize) -> (r: NodeKind)
    requires
        i < 19,
    ensures
        r == registry_node_kind_at(i as int),
{
    if i == 0 {
        NodeKind::Module
    } else if i == 1 {
        NodeKind::Procedure
    } else if i == 2 {
        NodeKind::Function
    } else if i == 3 {
        NodeKind::Query
    } else if i == 4 {
        NodeKind::DataCompositionSchema
    } else if i == 5 {
        NodeKind::DataSet
    } else if i == 6 {
        NodeKind::DataCompositionField
    } else if i == 7 {
        NodeKind::Form
    } else if i == 8 {
        NodeKind::Command
    } else if i == 9 {
        NodeKind::Attribute
    } else if i == 10 {
        NodeKind::StandardAttribute
    } else if i == 11 {
        NodeKind::TabularSection
    } else if i == 12 {
        NodeKind::Dimension
    } else if i == 13 {
        NodeKind::Resource
    } else if i == 14 {
        NodeKind::Measure
    } else if i == 15 {
        NodeKind::Role
    } else if i == 16 {
        NodeKind::AccessRight
    } else if i == 17 {
        NodeKind::Subsystem
    } else {
        NodeKind::Unknown
    }
}

fn coverage_node_kind_at_position(i: usize) -> (r: NodeKind)
    requires
        i < 43,
    ensures
        r == coverage_node_kind_at(i as int),
{
    if i < 24 {
        NodeKind::Metadata(metadata_kind_at_position(i))
    } else {
        registry_node_kind_at_position(i - 24)
    }
}

/// Returns every declared node kind, in declaration order: the metadata
/// kinds, then the other kinds.
pub fn semantic_coverage_node_kinds() -> (r: Vec<NodeKind>)
    ensures
        r@ == Seq::new(43, |i: int| coverage_node_kind_at(i)),
{
    let mut out: Vec<NodeKind> = Vec::new();
    let mut i: usize = 0;
    while i < 43
        invariant
            i <= 43,
            out@ == Seq::new(i as nat, |j: int| coverage_node_kind_at(j)),
        decreases 43 - i,
    {
        out.push(coverage_node_kind_at_position(i));
        i = i + 1;
        assert(out@ =~= Seq::new(i as nat, |j: int| coverage_node_kind_at(j)));
    }
    out
}

/// Returns every declared edge kind, in declaration order.
pub fn semantic_coverage_edge_kinds() -> (r: [EdgeKind; 11])
    ensures
        r@ == Seq::new(11, |i: int| edge_kind_at(i)),
{
    let r = [
        EdgeKind::Contains,
        EdgeKind::Calls,
        EdgeKind::References,
        EdgeKind::Reads,
        EdgeKind::Writes,
        EdgeKind::Grants,
        EdgeKind::Includes,
        EdgeKind::Extends,
        EdgeKind::DependsOn,
        EdgeKind::Opens,
        EdgeKind::Triggers,
    ];
    assert(r@ =~= Seq::new(11, |i: int| edge_kind_at(i)));
    r
}

/// Evidence every graph node kind requires.
pub open spec fn node_evidence(k: NodeKind) -> Seq<SemanticCoverageEvidence> {
    let base = seq![
        SemanticCoverageEvidence::Modeled,
        SemanticCoverageEvidence::NodeKindDeclared,
        SemanticCoverageEvidence::StableIdentityAssigned,
        SemanticCoverageEvidence::ProvenanceAttached,
        SemanticCoverageEvidence::QuerySupportExists,
        SemanticCoverageEvidence::PositiveTestExists,
    ];
    if k == NodeKind::Attribute || k == NodeKind::TabularSection {
        base.push(SemanticCoverageEvidence::SemanticPayloadPreserved)
    } else {
        base
    }
}

/// Representative test of a graph node kind.
pub open spec fn node_test_text(k: NodeKind) -> Seq<char> {
    if k == NodeKind::Attribute || k == NodeKind::TabularSection {
        "oneagent_graph::node::tests::accepts_member_payload_for_attribute_and_tabular_section"@
    } else {
        "oneagent_graph::coverage"@
    }
}

/// A supported capability with the given evidence, which is also its
/// required evidence, and one representative test.
pub open spec fn supported_capability(
    id: SemanticCoverageCapabilityId,
    title: Seq<char>,
    evidence: Seq<SemanticCoverageEvidence>,
    node: Option<NodeKind>,
    edge: Option<EdgeKind>,
    test: Seq<char>,
) -> CapabilityView {
    (
        id,
        title,
        SemanticCoverageStatus::Supported,
        evidence_set(evidence),
        evidence_set(evidence),
        Seq::empty(),
        node,
        edge,
        None,
        texts_with(Seq::empty(), test),
        Seq::empty(),
    )
}

/// Registry capability of a graph node kind.
pub open spec fn node_capability(k: NodeKind) -> CapabilityView {
    supported_capability(
        SemanticCoverageCapabilityId::SemanticNode(k),
        node_kind_code_text(k) + " semantic node"@,
        node_evidence(k),
        Some(k),
        None,
        node_test_text(k),
    )
}

/// Registry capability of a graph edge kind.
pub open spec fn edge_capability(k: EdgeKind) -> CapabilityView {
    supported_capability(
        SemanticCoverageCapabilityId::SemanticEdge(k),
        edge_kind_code_text(k) + " semantic edge"@,
        seq![
            SemanticCoverageEvidence::Modeled,
            SemanticCoverageEvidence::EdgeKindDeclared,
            SemanticCoverageEvidence::ProvenanceAttached,
            SemanticCoverageEvidence::ValidationRuleExists,
            SemanticCoverageEvidence::QuerySupportExists,
            SemanticCoverageEvidence::PositiveTestExists,
        ],
        None,
        Some(k),
        "oneagent_graph::coverage"@,
    )
}

/// Registry capability of a validation rule.
pub open spec fn validation_capability(c: SemanticGraphValidationCode) -> CapabilityView {
    supported_capability(
        SemanticCoverageCapabilityId::ValidationRule(c),
        validation_code_text(c) + " validation rule"@,
        seq![
            SemanticCoverageEvidence::Modeled,
            SemanticCoverageEvidence::ValidationRuleExists,
            SemanticCoverageEvidence::PositiveTestExists,
            SemanticCoverageEvidence::NegativeTestExists,
        ],
        None,
        None,
        "oneagent_graph::validation"@,
    )
}

/// Registry capability of a query capability: negative tests exist but are
/// not required.
pub open spec fn query_capability_view(k: SemanticQueryCapability) -> CapabilityView {
    (
        SemanticCoverageCapabilityId::QueryCapability(k),
        query_kind_text(k) + " query capability"@,
        SemanticCoverageStatus::Supported,
        evidence_set(
            seq![
                SemanticCoverageEvidence::Modeled,
                SemanticCoverageEvidence::QuerySupportExists,
                SemanticCoverageEvidence::PositiveTestExists,
                SemanticCoverageEvidence::NegativeTestExists,
            ],
        ),
        evidence_set(
            seq![
                SemanticCoverageEvidence::Modeled,
                SemanticCoverageEvidence::QuerySupportExists,
                SemanticCoverageEvidence::PositiveTestExists,
            ],
        ),
        Seq::empty(),
        None,
        None,
        None,
        texts_with(Seq::empty(), "oneagent_graph::query"@),
        Seq::empty(),
    )
}

/// Whether impact analysis propagates across an edge kind.
pub open spec fn propagates_impact(k: EdgeKind) -> bool {
    k == EdgeKind::Contains || k == EdgeKind::Calls || k == EdgeKind::References || k == EdgeKind::Reads || k
        == EdgeKind::Writes || k == EdgeKind::DependsOn || k == EdgeKind::Opens
}

/// Registry capability of impact propagation across an edge kind: supported
/// where the policy propagates, not applicable elsewhere.
pub open spec fn impact_capability_view(k: EdgeKind) -> CapabilityView {
    let title = edge_kind_code_text(k) + " impact propagation"@;
    if propagates_impact(k) {
        supported_capability(
            SemanticCoverageCapabilityId::ImpactPropagation(k),
            title,
            seq![SemanticCoverageEvidence::ImpactPropagationExists, SemanticCoverageEvidence::PositiveTestExists],
            None,
            Some(k),
            "oneagent_graph::impact"@,
        )
    } else {
        (
            SemanticCoverageCapabilityId::ImpactPropagation(k),
            title,
            SemanticCoverageStatus::NotApplicable,
            evidence_set(Seq::empty()),
            evidence_set(Seq::empty()),
            Seq::empty(),
            None,
            Some(k),
            None,
            Seq::empty(),
            texts_with(Seq::empty(), "The first impact policy intentionally excludes this edge semantic"@),
        )
    }
}

/// Registry capability of a provenance path.
pub open spec fn provenance_capability_view(k: SemanticProvenanceCapability) -> CapabilityView {
    supported_capability(
        SemanticCoverageCapabilityId::ProvenanceSource(k),
        provenance_kind_text(k) + " provenance"@,
        seq![
            SemanticCoverageEvidence::Modeled,
            SemanticCoverageEvidence::ProvenanceAttached,
            SemanticCoverageEvidence::PositiveTestExists,
        ],
        None,
        None,
        if k == SemanticProvenanceCapability::ReferenceRequest {
            "oneagent_graph::reference_request_build"@
        } else {
            "oneagent_graph::provenance"@
        },
    )
}

/// Every capability of the graph-domain registry, in declaration order:
/// node kinds, edge kinds, validation rules, query capabilities, impact
/// propagation per edge kind, provenance paths.
pub open spec fn registry_capabilities() -> Seq<CapabilityView> {
    Seq::new(43, |i: int| node_capability(coverage_node_kind_at(i))) + Seq::new(
        11,
        |i: int| edge_capability(edge_kind_at(i)),
    ) + Seq::new(12, |i: int| validation_capability(validation_code_at(i))) + Seq::new(
        6,
        |i: int| query_capability_view(query_capability_at(i)),
    ) + Seq::new(11, |i: int| impact_capability_view(edge_kind_at(i))) + Seq::new(
        8,
        |i: int| provenance_capability_view(provenance_capability_at(i)),
    )
}

fn titled(code: &str, suffix: &str) -> (r: String)
    ensures
        r@ == code@ + suffix@,
{
    let mut out = String::new();
    push_str(&mut out, code);
    push_str(&mut out, suffix);
    out
}

fn graph_node_capability(k: NodeKind) -> (r: SemanticCoverageCapability)
    ensures
        r@ == node_capability(k),
{
    let mut required = vec![
        SemanticCoverageEvidence::Modeled,
        SemanticCoverageEvidence::NodeKindDeclared,
        SemanticCoverageEvidence::StableIdentityAssigned,
        SemanticCoverageEvidence::ProvenanceAttached,
        SemanticCoverageEvidence::QuerySupportExists,
        SemanticCoverageEvidence::PositiveTestExists,
    ];
    let payload = k == NodeKind::Attribute || k == NodeKind::TabularSection;
    if payload {
        required.push(SemanticCoverageEvidence::SemanticPayloadPreserved);
    }
    assert(required@ =~= node_evidence(k));
    let test = if payload {
        "oneagent_graph::node::tests::accepts_member_payload_for_attribute_and_tabular_section"
    } else {
        "oneagent_graph::coverage"
    };
    SemanticCoverageCapability::new(
        SemanticCoverageCapabilityId::SemanticNode(k),
        titled(node_kind_code(k), " semantic node"),
        SemanticCoverageStatus::Supported,
        required.clone(),
        required,
    ).with_node_kind(k).with_representative_test(test.to_owned())
}

fn graph_edge_capability(k: EdgeKind) -> (r: SemanticCoverageCapability)
    ensures
        r@ == edge_capability(k),
{
    let required = vec![
        SemanticCoverageEvidence::Modeled,
        SemanticCoverageEvidence::EdgeKindDeclared,
        SemanticCoverageEvidence::ProvenanceAttached,
        SemanticCoverageEvidence::ValidationRuleExists,
        SemanticCoverageEvidence::QuerySupportExists,
        SemanticCoverageEvidence::PositiveTestExists,
    ];
    SemanticCoverageCapability::new(
        SemanticCoverageCapabilityId::SemanticEdge(k),
        titled(edge_kind_code(k), " semantic edge"),
        SemanticCoverageStatus::Supported,
        required.clone(),
        required,
    ).with_edge_kind(k).with_representative_test("oneagent_graph::coverage".to_owned())
}

fn graph_validation_capability(c: SemanticGraphValidationCode) -> (r: SemanticCoverageCapability)
    ensures
        r@ == validation_capability(c),
{
    let required = vec![
        SemanticCoverageEvidence::Modeled,
        SemanticCoverageEvidence::ValidationRuleExists,
        SemanticCoverageEvidence::PositiveTestExists,
        SemanticCoverageEvidence::NegativeTestExists,
    ];
    SemanticCoverageCapability::new(
        SemanticCoverageCapabilityId::ValidationRule(c),
        titled(c.as_str(), " validation rule"),
        SemanticCoverageStatus::Supported,
        required.clone(),
        required,
    ).with_representative_test("oneagent_graph::validation".to_owned())
}

fn graph_query_capability(k: SemanticQueryCapability) -> (r: SemanticCoverageCapability)
    ensures
        r@ == query_capability_view(k),
{
    SemanticCoverageCapability::new(
        SemanticCoverageCapabilityId::QueryCapability(k),
        titled(query_kind_code(k), " query capability"),
        SemanticCoverageStatus::Supported,
        vec![
            SemanticCoverageEvidence::Modeled,
            SemanticCoverageEvidence::QuerySupportExists,
            SemanticCoverageEvidence::PositiveTestExists,
            SemanticCoverageEvidence::NegativeTestExists,
        ],
        vec![
            SemanticCoverageEvidence::Modeled,
            SemanticCoverageEvidence::QuerySupportExists,
            SemanticCoverageEvidence::PositiveTestExists,
        ],
    ).with_representative_test("oneagent_graph::query".to_owned())
}

fn impact_capability(k: EdgeKind) -> (r: SemanticCoverageCapability)
    ensures
        r@ == impact_capability_view(k),
{
    let propagates = match k {
        EdgeKind::Contains | EdgeKind::Calls | EdgeKind::References | EdgeKind::Reads | EdgeKind::Writes
        | EdgeKind::DependsOn | EdgeKind::Opens => true,
        _ => false,
    };
    if propagates {
        let required = vec![
            SemanticCoverageEvidence::ImpactPropagationExists,
            SemanticCoverageEvidence::PositiveTestExists,
        ];
        SemanticCoverageCapability::new(
            SemanticCoverageCapabilityId::ImpactPropagation(k),
            titled(edge_kind_code(k), " impact propagation"),
            SemanticCoverageStatus::Supported,
            required.clone(),
            required,
        ).with_edge_kind(k).with_representative_test("oneagent_graph::impact".to_owned())
    } else {
        let none: Vec<SemanticCoverageEvidence> = Vec::new();
        assert(none@ =~= Seq::<SemanticCoverageEvidence>::empty());
        SemanticCoverageCapability::new(
            SemanticCoverageCapabilityId::ImpactPropagation(k),
            titled(edge_kind_code(k), " impact propagation"),
            SemanticCoverageStatus::NotApplicable,
            none.clone(),
            none,
        ).with_edge_kind(k).with_note("The first impact policy intentionally excludes this edge semantic".to_owned())
    }
}

fn graph_provenance_capability(k: SemanticProvenanceCapability) -> (r: SemanticCoverageCapability)
    ensures
        r@ == provenance_capability_view(k),
{
    let test = if k == SemanticProvenanceCapability::ReferenceRequest {
        "oneagent_graph::reference_request_build"
    } else {
        "oneagent_graph::provenance"
    };
    let required = vec![
        SemanticCoverageEvidence::Modeled,
        SemanticCoverageEvidence::ProvenanceAttached,
        SemanticCoverageEvidence::PositiveTestExists,
    ];
    SemanticCoverageCapability::new(
        SemanticCoverageCapabilityId::ProvenanceSource(k),
        titled(provenance_kind_code(k), " provenance"),
        SemanticCoverageStatus::Supported,
        required.clone(),
        required,
    ).with_representative_test(test.to_owned())
}

/// Every capability of the graph-domain registry, in declaration order.
fn graph_capabilities() -> (r: Vec<SemanticCoverageCapability>)
    ensures
        capability_views(r@) == registry_capabilities(),
{
    let mut out: Vec<SemanticCoverageCapability> = Vec::new();
    let mut i: usize = 0;
    while i < 43
        invariant
            i <= 43,
            capability_views(out@) == Seq::new(i as nat, |j: int| node_capability(coverage_node_kind_at(j))),
        decreases 43 - i,
    {
        let ghost before = capability_views(out@);
        out.push(graph_node_capability(coverage_node_kind_at_position(i)));
        assert(capability_views(out@) =~= before.push(out@[i as int]@));
        i = i + 1;
        assert(capability_views(out@) =~= Seq::new(i as nat, |j: int| node_capability(coverage_node_kind_at(j))));
    }
    let ghost s1 = capability_views(out@);
    let mut i: usize = 0;
    while i < 11
        invariant
            i <= 11,
            capability_views(out@) == s1 + Seq::new(i as nat, |j: int| edge_capability(edge_kind_at(j))),
        decreases 11 - i,
    {
        let ghost before = capability_views(out@);
        out.push(graph_edge_capability(edge_kind_at_position(i)));
        assert(capability_views(out@) =~= before.push(out@[out@.len() - 1]@));
        i = i + 1;
        assert(capability_views(out@) =~= s1 + Seq::new(i as nat, |j: int| edge_capability(edge_kind_at(j))));
    }
    let ghost s2 = capability_views(out@);
    let mut i: usize = 0;
    while i < 12
        invariant
            i <= 12,
            capability_views(out@) == s2 + Seq::new(i as nat, |j: int| validation_capability(validation_code_at(j))),
        decreases 12 - i,
    {
        let ghost before = capability_views(out@);
        out.push(graph_validation_capability(validation_code_at_position(i)));
        assert(capability_views(out@) =~= before.push(out@[out@.len() - 1]@));
        i = i + 1;
        assert(capability_views(out@) =~= s2 + Seq::new(
            i as nat,
            |j: int| validation_capability(validation_code_at(j)),
        ));
    }
    let ghost s3 = capability_views(out@);
    let mut i: usize = 0;
    while i < 6
        invariant
            i <= 6,
            capability_views(out@) == s3 + Seq::new(i as nat, |j: int| query_capability_view(query_capability_at(j))),
        decreases 6 - i,
    {
        let ghost before = capability_views(out@);
        out.push(graph_query_capability(query_capability_at_position(i)));
        assert(capability_views(out@) =~= before.push(out@[out@.len() - 1]@));
        i = i + 1;
        assert(capability_views(out@) =~= s3 + Seq::new(
            i as nat,
            |j: int| query_capability_view(query_capability_at(j)),
        ));
    }
    let ghost s4 = capability_views(out@);
    let mut i: usize = 0;
    while i < 11
        invariant
            i <= 11,
            capability_views(out@) == s4 + Seq::new(i as nat, |j: int| impact_capability_view(edge_kind_at(j))),
        decreases 11 - i,
    {
        let ghost before = capability_views(out@);
        out.push(impact_capability(edge_kind_at_position(i)));
        assert(capability_views(out@) =~= before.push(out@[out@.len() - 1]@));
        i = i + 1;
        assert(capability_views(out@) =~= s4 + Seq::new(i as nat, |j: int| impact_capability_view(edge_kind_at(j))));
    }
    let ghost s5 = capability_views(out@);
    let mut i: usize = 0;
    while i < 8
        invariant
            i <= 8,
            capability_views(out@) == s5 + Seq::new(
                i as nat,
                |j: int| provenance_capability_view(provenance_capability_at(j)),
            ),
        decreases 8 - i,
    {
        let ghost before = capability_views(out@);
        out.push(graph_provenance_capability(provenance_capability_at_position(i)));
        assert(capability_views(out@) =~= before.push(out@[out@.len() - 1]@));
        i = i + 1;
        assert(capability_views(out@) =~= s5 + Seq::new(
            i as nat,
            |j: int| provenance_capability_view(provenance_capability_at(j)),
        ));
    }
    assert(capability_views(out@) =~= registry_capabilities());
    out
}

/// Source-independent graph-domain coverage registry.
#[derive(Debug, Clone, Copy)]
pub struct SemanticCoverageRegistry;

impl SemanticCoverageRegistry {
    /// Audits graph-domain model, validation, query, impact and provenance
    /// capabilities.
    pub fn audit() -> (r: SemanticCoverageReport)
        ensures
            r@ == report_of(registry_capabilities()),
    {
        SemanticCoverageReport::from_capabilities(graph_capabilities())
    }
}

/// Occurrence and provenance counters for one node or edge kind.
#[derive(Debug, Default, Clone, Copy, PartialEq, Eq)]
pub struct SemanticObservedKindCoverage {
    total: usize,
    with_provenance: usize,
    without_provenance: usize,
}

impl View for SemanticObservedKindCoverage {
    type V = (usize, usize, usize);

    closed spec fn view(&self) -> (usize, usize, usize) {
        (self.total, self.with_provenance, self.without_provenance)
    }
}

impl SemanticObservedKindCoverage {
    /// Returns the observed fact count.
    pub fn total(self) -> (r: usize)
        ensures
            r == self@.0,
    {
        self.total
    }

    /// Returns the count with provenance.
    pub fn with_provenance(self) -> (r: usize)
        ensures
            r == self@.1,
    {
        self.with_provenance
    }

    /// Returns the count without provenance.
    pub fn without_provenance(self) -> (r: usize)
        ensures
            r == self@.2,
    {
        self.without_provenance
    }
}

/// Facts of kind `k` among `facts` (each a kind and whether it has
/// provenance): how many, how many with provenance, how many without.
pub open spec fn kind_counters<K>(facts: Seq<(K, bool)>, k: K) -> (nat, nat, nat)
    decreases facts.len(),
{
    if facts.len() == 0 {
        (0, 0, 0)
    } else {
        let c = kind_counters(facts.drop_last(), k);
        let f = facts.last();
        if f.0 == k {
            if f.1 {
                (c.0 + 1, c.1 + 1, c.2)
            } else {
                (c.0 + 1, c.1, c.2 + 1)
            }
        } else {
            c
        }
    }
}

/// Kind and provenance presence of each node.
pub open spec fn node_facts(nodes: Seq<NodeView>) -> Seq<(NodeKind, bool)> {
    nodes.map_values(|n: NodeView| (n.kind, n.provenance.len() > 0))
}

/// Kind and provenance presence of each edge.
pub open spec fn edge_facts(edges: Seq<EdgeView>) -> Seq<(EdgeKind, bool)> {
    edges.map_values(|e: EdgeView| (e.kind, e.provenance.len() > 0))
}

/// Counters of the first `n` node kinds that occur, in kind order.
pub open spec fn observed_nodes(facts: Seq<(NodeKind, bool)>, n: nat) -> Seq<(NodeKind, (usize, usize, usize))>
    decreases n,
{
    if n == 0 {
        Seq::empty()
    } else {
        let rest = observed_nodes(facts, (n - 1) as nat);
        let k = node_kind_at(n - 1);
        let c = kind_counters(facts, k);
        if c.0 > 0 {
            rest.push((k, (c.0 as usize, c.1 as usize, c.2 as usize)))
        } else {
            rest
        }
    }
}

/// Counters of the first `n` edge kinds that occur, in kind order.
pub open spec fn observed_edges(facts: Seq<(EdgeKind, bool)>, n: nat) -> Seq<(EdgeKind, (usize, usize, usize))>
    decreases n,
{
    if n == 0 {
        Seq::empty()
    } else {
        let rest = observed_edges(facts, (n - 1) as nat);
        let k = edge_kind_at(n - 1);
        let c = kind_counters(facts, k);
        if c.0 > 0 {
            rest.push((k, (c.0 as usize, c.1 as usize, c.2 as usize)))
        } else {
            rest
        }
    }
}

proof fn lemma_kind_counters_bound<K>(facts: Seq<(K, bool)>, k: K)
    ensures
        kind_counters(facts, k).0 <= facts.len(),
        kind_counters(facts, k).0 == kind_counters(facts, k).1 + kind_counters(facts, k).2,
    decreases facts.len(),
{
    if facts.len() > 0 {
        lemma_kind_counters_bound(facts.drop_last(), k);
    }
}

/// Counters of the facts of one kind.
fn count_kind<K: DistributionKey>(kinds: &[(K, bool)], k: K) -> (r:
    SemanticObservedKindCoverage)
    ensures
        r@ == ({
            let c = kind_counters(kinds@, k);
            (c.0 as usize, c.1 as usize, c.2 as usize)
        }),
        kind_counters(kinds@, k).0 <= kinds@.len(),
        r@.0 as nat == kind_counters(kinds@, k).0,
{
    let mut total: usize = 0;
    let mut with_provenance: usize = 0;
    let mut without_provenance: usize = 0;
    let mut i: usize = 0;
    while i < kinds.len()
        invariant
            i <= kinds@.len(),
            (total as nat, with_provenance as nat, without_provenance as nat) == kind_counters(
                kinds@.take(i as int),
                k,
            ),
        decreases kinds@.len() - i,
    {
        assert(kinds@.take(i + 1).drop_last() =~= kinds@.take(i as int));
        proof {
            lemma_kind_counters_bound(kinds@.take(i as int), k);
        }
        if kinds[i].0.same_key(&k) {
            total = total + 1;
            if kinds[i].1 {
                with_provenance = with_provenance + 1;
            } else {
                without_provenance = without_provenance + 1;
            }
        }
        i = i + 1;
    }
    assert(kinds@.take(i as int) =~= kinds@);
    proof {
        lemma_kind_counters_bound(kinds@, k);
    }
    SemanticObservedKindCoverage { total, with_provenance, without_provenance }
}

/// Deterministic observed coverage for one built semantic graph. It records
/// occurrence only: a kind absent from the snapshot is not classified as
/// unsupported.
#[derive(Debug, Clone, PartialEq, Eq)]
pub struct SemanticObservedCoverage {
    nodes: Vec<(NodeKind, SemanticObservedKindCoverage)>,
    edges: Vec<(EdgeKind, SemanticObservedKindCoverage)>,
}

/// Observed coverage view: counters per observed node kind and per observed
/// edge kind, in kind order.
pub type ObservedView = (Seq<(NodeKind, (usize, usize, usize))>, Seq<(EdgeKind, (usize, usize, usize))>);

/// Views of counters per kind.
pub open spec fn counter_views<K>(v: Seq<(K, SemanticObservedKindCoverage)>) -> Seq<(K, (usize, usize, usize))> {
    v.map_values(|x: (K, SemanticObservedKindCoverage)| (x.0, x.1@))
}

impl View for SemanticObservedCoverage {
    type V = ObservedView;

    closed spec fn view(&self) -> ObservedView {
        (counter_views(self.nodes@), counter_views(self.edges@))
    }
}

/// Sum of the totals of counters.
pub open spec fn totals_sum<K>(v: Seq<(K, (usize, usize, usize))>) -> nat
    decreases v.len(),
{
    if v.len() == 0 {
        0
    } else {
        totals_sum(v.drop_last()) + (v.last().1.0 as nat)
    }
}

/// Observed kinds the registry has no capability for, in order.
pub open spec fn unregistered_nodes(
    v: Seq<(NodeKind, (usize, usize, usize))>,
    caps: Seq<CapabilityView>,
) -> Seq<NodeKind>
    decreases v.len(),
{
    if v.len() == 0 {
        Seq::empty()
    } else {
        let rest = unregistered_nodes(v.drop_last(), caps);
        if capability_with(caps, SemanticCoverageCapabilityId::SemanticNode(v.last().0)) is None {
            rest.push(v.last().0)
        } else {
            rest
        }
    }
}

/// Observed edge kinds the registry has no capability for, in order.
pub open spec fn unregistered_edges(
    v: Seq<(EdgeKind, (usize, usize, usize))>,
    caps: Seq<CapabilityView>,
) -> Seq<EdgeKind>
    decreases v.len(),
{
    if v.len() == 0 {
        Seq::empty()
    } else {
        let rest = unregistered_edges(v.drop_last(), caps);
        if capability_with(caps, SemanticCoverageCapabilityId::SemanticEdge(v.last().0)) is None {
            rest.push(v.last().0)
        } else {
            rest
        }
    }
}

impl SemanticObservedCoverage {
    /// Builds observed coverage of a graph without changing it.
    pub fn for_graph(graph: &SemanticGraph) -> (r: Self)
        ensures
            r@ == (observed_nodes(node_facts(graph@.nodes), 43), observed_edges(edge_facts(graph@.edges), 11)),
    {
        let nodes = graph.nodes();
        let ghost nv = graph@.nodes;
        let mut node_kinds: Vec<(NodeKind, bool)> = Vec::new();
        let mut i: usize = 0;
        while i < nodes.len()
            invariant
                i <= nodes@.len(),
                nv == node_views(nodes@),
                node_kinds@ == node_facts(nv).take(i as int),
            decreases nodes@.len() - i,
        {
            let records = nodes[i].provenance();
            assert(provenance_views(records@).len() == records@.len());
            assert(nv[i as int] == nodes@[i as int]@);
            node_kinds.push((nodes[i].kind(), records.len() > 0));
            i = i + 1;
            assert(node_kinds@ =~= node_facts(nv).take(i as int));
        }
        assert(node_facts(nv).take(i as int) =~= node_facts(nv));
        let mut observed_node_list: Vec<(NodeKind, SemanticObservedKindCoverage)> = Vec::new();
        let mut k: usize = 0;
        while k < 43
            invariant
                k <= 43,
                node_kinds@ == node_facts(nv),
                counter_views(observed_node_list@) == observed_nodes(node_facts(nv), k as nat),
            decreases 43 - k,
        {
            let kind = node_kind_at_position(k);
            let c = count_kind(node_kinds.as_slice(), kind);
            let ghost before = observed_node_list@;

            if c.total > 0 {
                observed_node_list.push((kind, c));
                assert(counter_views(observed_node_list@) =~= counter_views(before).push((kind, c@)));
            }
            k = k + 1;
        }
        let edges = graph.edges();
        let ghost ev = graph@.edges;
        let mut edge_kinds: Vec<(EdgeKind, bool)> = Vec::new();
        let mut i: usize = 0;
        while i < edges.len()
            invariant
                i <= edges@.len(),
                ev == edge_views(edges@),
                edge_kinds@ == edge_facts(ev).take(i as int),
            decreases edges@.len() - i,
        {
            let records = edges[i].provenance();
            assert(provenance_views(records@).len() == records@.len());
            assert(ev[i as int] == edges@[i as int]@);
            edge_kinds.push((edges[i].kind(), records.len() > 0));
            i = i + 1;
            assert(edge_kinds@ =~= edge_facts(ev).take(i as int));
        }
        assert(edge_facts(ev).take(i as int) =~= edge_facts(ev));
        let mut observed_edge_list: Vec<(EdgeKind, SemanticObservedKindCoverage)> = Vec::new();
        let mut k: usize = 0;
        while k < 11
            invariant
                k <= 11,
                edge_kinds@ == edge_facts(ev),
                counter_views(observed_edge_list@) == observed_edges(edge_facts(ev), k as nat),
            decreases 11 - k,
        {
            let kind = edge_kind_at_position(k);
            let c = count_kind(edge_kinds.as_slice(), kind);
            let ghost before = observed_edge_list@;
            if c.total > 0 {
                observed_edge_list.push((kind, c));
                assert(counter_views(observed_edge_list@) =~= counter_views(before).push((kind, c@)));
            }
            k = k + 1;
        }
        SemanticObservedCoverage { nodes: observed_node_list, edges: observed_edge_list }
    }

    /// Returns observed node kinds and provenance counters.
    pub fn nodes(&self) -> (r: &[(NodeKind, SemanticObservedKindCoverage)])
        ensures
            counter_views(r@) == self@.0,
    {
        self.nodes.as_slice()
    }

    /// Returns observed edge kinds and provenance counters.
    pub fn edges(&self) -> (r: &[(EdgeKind, SemanticObservedKindCoverage)])
        ensures
            counter_views(r@) == self@.1,
    {
        self.edges.as_slice()
    }

    /// Returns the total observed node count.
    pub fn total_nodes(&self) -> (r: usize)
        requires
            totals_sum(self@.0) <= usize::MAX,
        ensures
            r == totals_sum(self@.0),
    {
        let ghost v = self@.0;
        let mut sum: usize = 0;
        let mut i: usize = 0;
        while i < self.nodes.len()
            invariant
                i <= self.nodes@.len(),
                v == counter_views(self.nodes@),
                totals_sum(v) <= usize::MAX,
                sum == totals_sum(v.take(i as int)),
            decreases self.nodes@.len() - i,
        {
            assert(v.take(i + 1).drop_last() =~= v.take(i as int));
            proof {
                lemma_totals_prefix(v, i + 1);
            }
            sum = sum + self.nodes[i].1.total;
            i = i + 1;
        }
        assert(v.take(i as int) =~= v);
        sum
    }

    /// Returns the total observed edge count.
    pub fn total_edges(&self) -> (r: usize)
        requires
            totals_sum(self@.1) <= usize::MAX,
        ensures
            r == totals_sum(self@.1),
    {
        let ghost v = self@.1;
        let mut sum: usize = 0;
        let mut i: usize = 0;
        while i < self.edges.len()
            invariant
                i <= self.edges@.len(),
                v == counter_views(self.edges@),
                totals_sum(v) <= usize::MAX,
                sum == totals_sum(v.take(i as int)),
            decreases self.edges@.len() - i,
        {
            assert(v.take(i + 1).drop_last() =~= v.take(i as int));
            proof {
                lemma_totals_prefix(v, i + 1);
            }
            sum = sum + self.edges[i].1.total;
            i = i + 1;
        }
        assert(v.take(i as int) =~= v);
        sum
    }

    /// Returns observed node kinds absent from a registry.
    pub fn unregistered_node_kinds(&self, registry: &SemanticCoverageReport) -> (r: Vec<NodeKind>)
        ensures
            r@ == unregistered_nodes(self@.0, registry@.0),
    {
        let ghost v = self@.0;
        let mut out: Vec<NodeKind> = Vec::new();
        let mut i: usize = 0;
        while i < self.nodes.len()
            invariant
                i <= self.nodes@.len(),
                v == counter_views(self.nodes@),
                out@ == unregistered_nodes(v.take(i as int), registry@.0),
            decreases self.nodes@.len() - i,
        {
            assert(v.take(i + 1).drop_last() =~= v.take(i as int));
            let kind = self.nodes[i].0;
            if registry.capability(SemanticCoverageCapabilityId::SemanticNode(kind)).is_none() {
                out.push(kind);
            }
            i = i + 1;
        }
        assert(v.take(i as int) =~= v);
        out
    }

    /// Returns observed edge kinds absent from a registry.
    pub fn unregistered_edge_kinds(&self, registry: &SemanticCoverageReport) -> (r: Vec<EdgeKind>)
        ensures
            r@ == unregistered_edges(self@.1, registry@.0),
    {
        let ghost v = self@.1;
        let mut out: Vec<EdgeKind> = Vec::new();
        let mut i: usize = 0;
        while i < self.edges.len()
            invariant
                i <= self.edges@.len(),
                v == counter_views(self.edges@),
                out@ == unregistered_edges(v.take(i as int), registry@.0),
            decreases self.edges@.len() - i,
        {
            assert(v.take(i + 1).drop_last() =~= v.take(i as int));
            let kind = self.edges[i].0;
            if registry.capability(SemanticCoverageCapabilityId::SemanticEdge(kind)).is_none() {
                out.push(kind);
            }
            i = i + 1;
        }
        assert(v.take(i as int) =~= v);
        out
    }
}

/// A prefix of counters sums to no more than all of them.
proof fn lemma_totals_prefix<K>(v: Seq<(K, (usize, usize, usize))>, n: int)
    requires
        0 <= n <= v.len(),
    ensures
        totals_sum(v.take(n)) <= totals_sum(v),
    decreases v.len(),
{
    if n < v.len() {
        assert(v.drop_last().take(n) =~= v.take(n));
        lemma_totals_prefix(v.drop_last(), n);
    } else {
        assert(v.take(n) =~= v);
    }
}

/// Position of a node kind in kind order.
pub open spec fn node_kind_order(k: NodeKind) -> int {
    match k {
        NodeKind::Metadata(m) => match m {
            MetadataKind::Configuration => 0,
            MetadataKind::Subsystem => 1,
            MetadataKind::Catalog => 2,
            MetadataKind::Document => 3,
            MetadataKind::Enumeration => 4,
            MetadataKind::CommonModule => 5,
            MetadataKind::Report => 6,
            MetadataKind::DataProcessor => 7,
            MetadataKind::InformationRegister => 8,
            MetadataKind::AccumulationRegister => 9,
            MetadataKind::AccountingRegister => 10,
            MetadataKind::CalculationRegister => 11,
            MetadataKind::BusinessProcess => 12,
            MetadataKind::Task => 13,
            MetadataKind::Role => 14,
            MetadataKind::CommonForm => 15,
            MetadataKind::Form => 16,
            MetadataKind::Command => 17,
            MetadataKind::Template => 18,
            MetadataKind::HttpService => 19,
            MetadataKind::WebService => 20,
            MetadataKind::XdtoPackage => 21,
            MetadataKind::EventSubscription => 22,
            MetadataKind::Unknown => 23,
        },
        NodeKind::Module => 24,
        NodeKind::Procedure => 25,
        NodeKind::Function => 26,
        NodeKind::Query => 27,
        NodeKind::DataCompositionSchema => 28,
        NodeKind::DataSet => 29,
        NodeKind::DataCompositionField => 30,
        NodeKind::Form => 31,
        NodeKind::Command => 32,
        NodeKind::Attribute => 33,
        NodeKind::StandardAttribute => 34,
        NodeKind::TabularSection => 35,
        NodeKind::Dimension => 36,
        NodeKind::Resource => 37,
        NodeKind::Measure => 38,
        NodeKind::Role => 39,
        NodeKind::AccessRight => 40,
        NodeKind::Subsystem => 41,
        NodeKind::Unknown => 42,
    }
}

proof fn lemma_node_kind_order(i: int)
    requires
        0 <= i < 43,
    ensures
        node_kind_order(node_kind_at(i)) == i,
{
}

proof fn lemma_node_kind_at_order(k: NodeKind)
    ensures
        0 <= node_kind_order(k) < 43,
        node_kind_at(node_kind_order(k)) == k,
{
}

proof fn lemma_edge_kind_order(i: int)
    requires
        0 <= i < 11,
    ensures
        crate::graph::query::edge_kind_rank(edge_kind_at(i)) == i,
{
}

proof fn lemma_edge_kind_at_order(k: EdgeKind)
    ensures
        crate::graph::query::edge_kind_rank(k) < 11,
        edge_kind_at(crate::graph::query::edge_kind_rank(k) as int) == k,
{
}

/// Sum of the counts of the first `n` keys listed by `at`.
pub open spec fn count_sum<K>(facts: Seq<(K, bool)>, at: spec_fn(int) -> K, n: nat) -> nat
    decreases n,
{
    if n == 0 {
        0
    } else {
        count_sum(facts, at, (n - 1) as nat) + kind_counters(facts, at(n - 1)).0
    }
}

proof fn lemma_count_sum_push<K>(facts: Seq<(K, bool)>, f: (K, bool), at: spec_fn(int) -> K, n: nat, pos: int)
    requires
        forall|i: int| 0 <= i < n ==> (#[trigger] at(i) == f.0 <==> i == pos),
    ensures
        count_sum(facts.push(f), at, n) == count_sum(facts, at, n) + if 0 <= pos < n {
            1nat
        } else {
            0nat
        },
    decreases n,
{
    if n > 0 {
        lemma_count_sum_push(facts, f, at, (n - 1) as nat, pos);
        assert(facts.push(f).drop_last() =~= facts);
    }
}

proof fn lemma_count_sum_total<K>(facts: Seq<(K, bool)>, at: spec_fn(int) -> K, n: nat, order: spec_fn(K) -> int)
    requires
        forall|i: int| 0 <= i < n ==> #[trigger] order(at(i)) == i,
        forall|k: K| 0 <= #[trigger] order(k) < n && at(order(k)) == k,
    ensures
        count_sum(facts, at, n) == facts.len(),
    decreases facts.len(),
{
    if facts.len() == 0 {
        lemma_count_sum_empty(facts, at, n);
    } else {
        let rest = facts.drop_last();
        let f = facts.last();
        lemma_count_sum_total(rest, at, n, order);
        assert forall|i: int| 0 <= i < n implies (#[trigger] at(i) == f.0 <==> i == order(f.0)) by {
            if at(i) == f.0 {
                assert(order(at(i)) == i);
            }
        }
        lemma_count_sum_push(rest, f, at, n, order(f.0));
        assert(rest.push(f) =~= facts);
    }
}

proof fn lemma_count_sum_empty<K>(facts: Seq<(K, bool)>, at: spec_fn(int) -> K, n: nat)
    requires
        facts.len() == 0,
    ensures
        count_sum(facts, at, n) == 0,
    decreases n,
{
    if n > 0 {
        lemma_count_sum_empty(facts, at, (n - 1) as nat);
    }
}

proof fn lemma_observed_nodes_sum(facts: Seq<(NodeKind, bool)>, n: nat)
    requires
        facts.len() <= usize::MAX,
    ensures
        totals_sum(observed_nodes(facts, n)) == count_sum(facts, |i: int| node_kind_at(i), n),
    decreases n,
{
    if n > 0 {
        lemma_observed_nodes_sum(facts, (n - 1) as nat);
        lemma_kind_counters_bound(facts, node_kind_at(n - 1));
        let rest = observed_nodes(facts, (n - 1) as nat);
        let c = kind_counters(facts, node_kind_at(n - 1));
        if c.0 > 0 {
            let x = (node_kind_at(n - 1), (c.0 as usize, c.1 as usize, c.2 as usize));
            assert(rest.push(x).drop_last() =~= rest);
        }
    }
}

proof fn lemma_observed_edges_sum(facts: Seq<(EdgeKind, bool)>, n: nat)
    requires
        facts.len() <= usize::MAX,
    ensures
        totals_sum(observed_edges(facts, n)) == count_sum(facts, |i: int| edge_kind_at(i), n),
    decreases n,
{
    if n > 0 {
        lemma_observed_edges_sum(facts, (n - 1) as nat);
        lemma_kind_counters_bound(facts, edge_kind_at(n - 1));
        let rest = observed_edges(facts, (n - 1) as nat);
        let c = kind_counters(facts, edge_kind_at(n - 1));
        if c.0 > 0 {
            let x = (edge_kind_at(n - 1), (c.0 as usize, c.1 as usize, c.2 as usize));
            assert(rest.push(x).drop_last() =~= rest);
        }
    }
}

/// Observed coverage counts every node and every edge of the graph exactly
/// once: the per-kind totals add up to the number of nodes and edges.
pub proof fn law_observed_coverage_counts_every_fact(g: crate::graph::semantic_graph::GraphView)
    requires
        g.nodes.len() <= usize::MAX,
        g.edges.len() <= usize::MAX,
    ensures
        totals_sum(observed_nodes(node_facts(g.nodes), 43)) == g.nodes.len(),
        totals_sum(observed_edges(edge_facts(g.edges), 11)) == g.edges.len(),
{
    let nf = node_facts(g.nodes);
    let ef = edge_facts(g.edges);
    lemma_observed_nodes_sum(nf, 43);
    lemma_observed_edges_sum(ef, 11);
    let nat_at = |i: int| node_kind_at(i);
    let nat_order = |k: NodeKind| node_kind_order(k);
    assert forall|i: int| 0 <= i < 43 implies #[trigger] nat_order(nat_at(i)) == i by {
        lemma_node_kind_order(i);
    }
    assert forall|k: NodeKind| 0 <= #[trigger] nat_order(k) < 43 && nat_at(nat_order(k)) == k by {
        lemma_node_kind_at_order(k);
    }
    lemma_count_sum_total(nf, nat_at, 43, nat_order);
    let eat = |i: int| edge_kind_at(i);
    let eorder = |k: EdgeKind| crate::graph::query::edge_kind_rank(k) as int;
    assert forall|i: int| 0 <= i < 11 implies #[trigger] eorder(eat(i)) == i by {
        lemma_edge_kind_order(i);
    }
    assert forall|k: EdgeKind| 0 <= #[trigger] eorder(k) < 11 && eat(eorder(k)) == k by {
        lemma_edge_kind_at_order(k);
    }
    lemma_count_sum_total(ef, eat, 11, eorder);
}

} // verus!
