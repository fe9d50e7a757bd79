use oneagent::entity::{EntityId, EntityName};
use oneagent::graph::coverage::{
    semantic_coverage_edge_kinds, semantic_coverage_node_kinds, SemanticCoverageCapability,
    SemanticCoverageCapabilityId, SemanticCoverageCategory, SemanticCoverageEvidence, SemanticCoverageGap,
    SemanticCoverageGapPriority, SemanticCoverageRegistry, SemanticCoverageReport, SemanticCoverageStatus,
    SemanticObservedCoverage, SemanticProvenanceCapability, SemanticQueryCapability, SemanticReferenceCapability,
};
use oneagent::graph::edge::GraphEdge;
use oneagent::graph::kind::{EdgeKind, MetadataKind, NodeKind};
use oneagent::graph::node::GraphNode;
use oneagent::graph::provenance::{Confidence, FactOrigin, ProducerId, Provenance, ResolutionState};
use oneagent::graph::semantic_graph::SemanticGraph;
use oneagent::graph::validation::SemanticGraphValidationCode;

use SemanticCoverageEvidence as Evidence;

fn capability(
    id: SemanticCoverageCapabilityId,
    status: SemanticCoverageStatus,
    evidence: Vec<Evidence>,
    required: Vec<Evidence>,
) -> SemanticCoverageCapability {
    SemanticCoverageCapability::new(id, "title".to_owned(), status, evidence, required)
}

#[test]
fn category_and_capability_identifiers_are_stable() {
    assert_eq!(SemanticCoverageCategory::ImpactPropagationCapability.as_str(), "impact_propagation_capability");
    assert_eq!(
        SemanticCoverageCapabilityId::SemanticNode(NodeKind::TabularSection).as_str(),
        "semantic_node.tabular_section"
    );
    assert_eq!(
        SemanticCoverageCapabilityId::SemanticNode(NodeKind::Metadata(MetadataKind::Catalog)).as_str(),
        "semantic_node.metadata.catalog"
    );
    assert_eq!(
        SemanticCoverageCapabilityId::MetadataReference(SemanticReferenceCapability::BslCall).as_str(),
        "metadata_reference.bsl_call"
    );
    assert_eq!(SemanticCoverageCapabilityId::SemanticEdge(EdgeKind::DependsOn).as_str(), "semantic_edge.depends_on");
    assert_eq!(
        SemanticCoverageCapabilityId::ProvenanceSource(SemanticProvenanceCapability::ResolvedReferenceEdge).as_str(),
        "provenance_source.resolved_reference_edge"
    );
    assert_eq!(
        SemanticCoverageCapabilityId::QueryCapability(SemanticQueryCapability::NameAndKindLookup).as_str(),
        "query_capability.name_and_kind_lookup"
    );
    assert_eq!(
        SemanticCoverageCapabilityId::ValidationRule(SemanticGraphValidationCode::Cycle).category(),
        SemanticCoverageCategory::ValidationRule
    );
}

#[test]
fn capability_evidence_is_an_ordered_set_and_texts_are_deduplicated() {
    let c = capability(
        SemanticCoverageCapabilityId::SemanticEdge(EdgeKind::Calls),
        SemanticCoverageStatus::PartiallySupported,
        vec![Evidence::PositiveTestExists, Evidence::Modeled, Evidence::Modeled],
        vec![Evidence::ProvenanceAttached, Evidence::Modeled, Evidence::PositiveTestExists],
    )
    .with_limitation("zeta".to_owned())
    .with_limitation("alpha".to_owned())
    .with_limitation("zeta".to_owned())
    .with_edge_kind(EdgeKind::Calls);

    assert_eq!(c.evidence(), &[Evidence::Modeled, Evidence::PositiveTestExists]);
    assert_eq!(
        c.required_evidence(),
        &[Evidence::Modeled, Evidence::ProvenanceAttached, Evidence::PositiveTestExists]
    );
    assert_eq!(c.missing_evidence(), vec![Evidence::ProvenanceAttached]);
    assert_eq!(c.limitations(), &["alpha".to_owned(), "zeta".to_owned()]);
    assert_eq!(c.related_edge_kind(), Some(EdgeKind::Calls));
    assert_eq!(c.stable_id(), "semantic_edge.calls");
    assert_eq!(c.category(), SemanticCoverageCategory::SemanticEdge);
}

#[test]
fn gaps_follow_status_evidence_and_priority_policy() {
    let supported = capability(
        SemanticCoverageCapabilityId::QueryCapability(SemanticQueryCapability::Traversal),
        SemanticCoverageStatus::Supported,
        vec![Evidence::Modeled],
        vec![Evidence::Modeled],
    );
    assert!(SemanticCoverageGap::from_capability(&supported).is_none());

    let not_applicable = capability(
        SemanticCoverageCapabilityId::ImpactPropagation(EdgeKind::Grants),
        SemanticCoverageStatus::NotApplicable,
        vec![],
        vec![],
    );
    assert!(SemanticCoverageGap::from_capability(&not_applicable).is_none());

    let partial = capability(
        SemanticCoverageCapabilityId::QueryCapability(SemanticQueryCapability::Traversal),
        SemanticCoverageStatus::PartiallySupported,
        vec![Evidence::Modeled],
        vec![Evidence::Modeled, Evidence::NegativeTestExists],
    );
    let gap = SemanticCoverageGap::from_capability(&partial).expect("gap must exist");
    assert_eq!(gap.priority(), SemanticCoverageGapPriority::Medium);
    assert_eq!(gap.missing_evidence(), &[Evidence::NegativeTestExists]);
    assert_eq!(gap.explanation(), "query_capability.traversal is partially_supported with incomplete required evidence");
    assert_eq!(gap.suggested_next_action(), "Add the missing representative positive or negative test");
    assert_eq!(gap.stable_id(), "coverage_gap.query_capability.traversal");

    let bsl = capability(
        SemanticCoverageCapabilityId::MetadataReference(SemanticReferenceCapability::BslCall),
        SemanticCoverageStatus::PartiallySupported,
        vec![Evidence::ReferenceExtracted],
        vec![Evidence::ReferenceExtracted, Evidence::DiagnosticEmitted],
    )
    .with_limitation("diagnostics are not emitted yet".to_owned());
    let gap = SemanticCoverageGap::from_capability(&bsl).expect("gap must exist");
    assert_eq!(gap.priority(), SemanticCoverageGapPriority::Critical);
    assert_eq!(gap.explanation(), "diagnostics are not emitted yet");
    assert_eq!(gap.suggested_next_action(), "Complete missing evidence for metadata_reference.bsl_call");

    let unprovenanced = capability(
        SemanticCoverageCapabilityId::SemanticNode(NodeKind::Module),
        SemanticCoverageStatus::PartiallySupported,
        vec![Evidence::NodeEmitted],
        vec![Evidence::NodeEmitted, Evidence::ProvenanceAttached],
    );
    let gap = SemanticCoverageGap::from_capability(&unprovenanced).expect("gap must exist");
    assert_eq!(gap.priority(), SemanticCoverageGapPriority::Critical);
    assert_eq!(
        gap.suggested_next_action(),
        "Attach provenance at the fact creation site and add regression coverage"
    );

    let unsupported = capability(
        SemanticCoverageCapabilityId::SemanticNode(NodeKind::Role),
        SemanticCoverageStatus::Unsupported,
        vec![],
        vec![Evidence::NodeEmitted],
    );
    let gap = SemanticCoverageGap::from_capability(&unsupported).expect("gap must exist");
    assert_eq!(gap.priority(), SemanticCoverageGapPriority::High);
    assert_eq!(
        gap.suggested_next_action(),
        "Emit the typed node in its owning adapter and add representative integration coverage"
    );
}

#[test]
fn report_orders_capabilities_and_gaps_and_counts_them() {
    let report = SemanticCoverageReport::from_capabilities(vec![
        capability(
            SemanticCoverageCapabilityId::SemanticNode(NodeKind::Role),
            SemanticCoverageStatus::Unsupported,
            vec![],
            vec![Evidence::NodeEmitted],
        )
        .with_node_kind(NodeKind::Role),
        capability(
            SemanticCoverageCapabilityId::QueryCapability(SemanticQueryCapability::Traversal),
            SemanticCoverageStatus::PartiallySupported,
            vec![Evidence::Modeled],
            vec![Evidence::Modeled, Evidence::NegativeTestExists],
        ),
        capability(
            SemanticCoverageCapabilityId::SemanticEdge(EdgeKind::Calls),
            SemanticCoverageStatus::Supported,
            vec![Evidence::Modeled, Evidence::PositiveTestExists],
            vec![Evidence::Modeled],
        )
        .with_edge_kind(EdgeKind::Calls),
    ]);

    let ids: Vec<String> = report.capabilities().iter().map(|c| c.stable_id()).collect();
    assert_eq!(ids, vec!["query_capability.traversal", "semantic_edge.calls", "semantic_node.role"]);
    let gap_priorities: Vec<SemanticCoverageGapPriority> = report.gaps().iter().map(|g| g.priority()).collect();
    assert_eq!(gap_priorities, vec![SemanticCoverageGapPriority::High, SemanticCoverageGapPriority::Medium]);
    assert_eq!(report.summary().total(), 3);
    assert_eq!(
        report.summary().by_status(),
        &[
            (SemanticCoverageStatus::Supported, 1),
            (SemanticCoverageStatus::PartiallySupported, 1),
            (SemanticCoverageStatus::Unsupported, 1),
        ]
    );
    assert_eq!(
        report.summary().by_gap_priority(),
        &[(SemanticCoverageGapPriority::High, 1), (SemanticCoverageGapPriority::Medium, 1)]
    );
    assert_eq!(report.gaps_by_priority(SemanticCoverageGapPriority::High).len(), 1);
    assert!(report.capability(SemanticCoverageCapabilityId::SemanticEdge(EdgeKind::Calls)).is_some());
    assert!(report.capability(SemanticCoverageCapabilityId::SemanticEdge(EdgeKind::Reads)).is_none());
    assert_eq!(report.capabilities_without_positive_tests().len(), 2);
    assert_eq!(report.capabilities_without_negative_tests().len(), 1);
    assert!(report.duplicate_ids().is_empty());
    assert!(report.is_consistent());
}

#[test]
fn duplicate_identities_make_a_report_inconsistent() {
    let twice = || {
        capability(
            SemanticCoverageCapabilityId::QueryCapability(SemanticQueryCapability::NodeLookup),
            SemanticCoverageStatus::Supported,
            vec![Evidence::Modeled],
            vec![Evidence::Modeled],
        )
    };
    let report = SemanticCoverageReport::from_capabilities(vec![twice(), twice()]);

    assert_eq!(report.duplicate_ids(), vec!["query_capability.node_lookup".to_owned()]);
    assert!(!report.is_consistent());
}

#[test]
fn registry_audit_is_consistent_and_complete() {
    let report = SemanticCoverageRegistry::audit();

    assert_eq!(report.summary().total(), 91);
    assert!(report.is_consistent());
    assert!(report.gaps().is_empty());
    assert!(report.duplicate_ids().is_empty());
    assert!(report.capabilities_without_positive_tests().is_empty());
    assert!(report.capabilities_missing_provenance().is_empty());
    assert!(report.declared_but_unused().is_empty());
    assert_eq!(
        report.summary().by_category(),
        &[
            (SemanticCoverageCategory::SemanticNode, 43),
            (SemanticCoverageCategory::SemanticEdge, 11),
            (SemanticCoverageCategory::ProvenanceSource, 8),
            (SemanticCoverageCategory::ValidationRule, 12),
            (SemanticCoverageCategory::QueryCapability, 6),
            (SemanticCoverageCategory::ImpactPropagationCapability, 11),
        ]
    );
    assert_eq!(
        report.summary().by_status(),
        &[(SemanticCoverageStatus::Supported, 87), (SemanticCoverageStatus::NotApplicable, 4)]
    );
    let grants = report
        .capability(SemanticCoverageCapabilityId::ImpactPropagation(EdgeKind::Grants))
        .expect("impact capability must exist");
    assert_eq!(grants.status(), SemanticCoverageStatus::NotApplicable);
    assert_eq!(grants.notes().len(), 1);
    let attribute = report
        .capability(SemanticCoverageCapabilityId::SemanticNode(NodeKind::Attribute))
        .expect("node capability must exist");
    assert!(attribute.required_evidence().contains(&Evidence::SemanticPayloadPreserved));
    assert_eq!(semantic_coverage_node_kinds().len(), 43);
    assert!(semantic_coverage_node_kinds().contains(&NodeKind::DataCompositionSchema));
    assert!(semantic_coverage_node_kinds().contains(&NodeKind::DataSet));
    assert!(semantic_coverage_node_kinds().contains(&NodeKind::DataCompositionField));
    assert_eq!(semantic_coverage_node_kinds()[24], NodeKind::Module);
    assert_eq!(semantic_coverage_node_kinds()[28], NodeKind::DataCompositionSchema);
    assert_eq!(semantic_coverage_node_kinds()[42], NodeKind::Unknown);
    assert_eq!(semantic_coverage_edge_kinds()[10], EdgeKind::Triggers);
}

fn id(value: &str) -> EntityId {
    EntityId::new(value).expect("identifier must be valid")
}

fn name(value: &str) -> EntityName {
    EntityName::new(value).expect("name must be valid")
}

#[test]
fn observed_coverage_counts_kinds_and_provenance() {
    let provenance = Provenance::new(
        Some(id("file")),
        ProducerId::new("tests"),
        FactOrigin::Declared,
        Confidence::Exact,
        ResolutionState::NotApplicable,
    );
    let mut graph = SemanticGraph::new();
    graph.insert_node(GraphNode::new_with_provenance(id("a"), name("A"), NodeKind::Module, vec![provenance]));
    graph.insert_node(GraphNode::new(id("b"), name("B"), NodeKind::Module));
    graph.insert_node(GraphNode::new(id("c"), name("C"), NodeKind::DataSet));
    graph.insert_edge(GraphEdge::new(id("a"), id("b"), EdgeKind::Calls)).expect("edge must be valid");

    let observed = SemanticObservedCoverage::for_graph(&graph);

    assert_eq!(observed.nodes().len(), 2);
    assert_eq!(observed.nodes()[0].0, NodeKind::Module);
    assert_eq!(observed.nodes()[0].1.total(), 2);
    assert_eq!(observed.nodes()[0].1.with_provenance(), 1);
    assert_eq!(observed.nodes()[0].1.without_provenance(), 1);
    assert_eq!(observed.nodes()[1].0, NodeKind::DataSet);
    assert_eq!(observed.total_nodes(), 3);
    assert_eq!(observed.total_edges(), 1);
    let registry = SemanticCoverageRegistry::audit();
    assert!(observed.unregistered_node_kinds(&registry).is_empty());
    assert!(observed.unregistered_edge_kinds(&registry).is_empty());
}
