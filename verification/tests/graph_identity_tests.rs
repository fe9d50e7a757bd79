use oneagent::graph::diagnostic::SemanticDiagnosticCode;
use oneagent::entity::EntityId;
use oneagent::graph::edge_identity::{edge_id, edge_kind_code};
use oneagent::graph::identity::{EdgeId, NodeId};
use oneagent::graph::kind::EdgeKind;
use oneagent::graph::provenance::{Confidence, FactOrigin, ProducerId, Provenance, ResolutionState};

#[test]
fn node_id_preserves_canonical_value() {
    let identifier = NodeId::new("oneagent://metadata/catalog/Products");

    assert_eq!(identifier.as_str(), "oneagent://metadata/catalog/Products");
    assert_eq!(identifier.to_string(), "oneagent://metadata/catalog/Products");
}

#[test]
fn node_id_supports_deterministic_ordering() {
    let first = NodeId::new("oneagent://metadata/catalog/Products");
    let second = NodeId::new("oneagent://metadata/document/SalesInvoice");

    assert!(first < second);
}

#[test]
fn edge_id_preserves_canonical_value() {
    let identifier = EdgeId::new("oneagent://edge/metadata/catalog/Products/has-attribute/Code");

    assert_eq!(
        identifier.as_str(),
        "oneagent://edge/metadata/catalog/Products/has-attribute/Code"
    );
}

#[test]
fn identifiers_can_be_created_from_strings() {
    let node = NodeId::from(String::from("oneagent://module/Catalog.Products.ObjectModule"));
    let edge = EdgeId::from("oneagent://edge/example");

    assert_eq!(node.as_str(), "oneagent://module/Catalog.Products.ObjectModule");
    assert_eq!(edge.as_str(), "oneagent://edge/example");
}

#[test]
fn identity_preserves_the_existing_encoded_contract() {
    let id = edge_id("source", "target", EdgeKind::DependsOn);

    assert_eq!(id.as_str(), "edge:source#6:source;target#6:target;kind:depends_on");
}

#[test]
fn opens_has_a_stable_machine_identity_without_changing_existing_kinds() {
    let opens = edge_id("source", "target", EdgeKind::Opens);
    let depends_on = edge_id("source", "target", EdgeKind::DependsOn);

    assert_eq!(opens.as_str(), "edge:source#6:source;target#6:target;kind:opens");
    assert_eq!(depends_on.as_str(), "edge:source#6:source;target#6:target;kind:depends_on");
    assert_ne!(opens, depends_on);
}

#[test]
fn triggers_has_a_stable_machine_identity() {
    let triggers = edge_id("source", "target", EdgeKind::Triggers);

    assert_eq!(triggers.as_str(), "edge:source#6:source;target#6:target;kind:triggers");
    assert_ne!(triggers, edge_id("source", "target", EdgeKind::References));
}

#[test]
fn length_prefixes_disambiguate_concatenated_components() {
    assert_ne!(edge_id("a:b", "c", EdgeKind::Calls), edge_id("a", "b:c", EdgeKind::Calls));
}

#[test]
fn edge_identity_counts_utf8_bytes_and_multi_digit_lengths() {
    assert_eq!(
        edge_id("Справочник", "abcdefghijkl", EdgeKind::Contains).as_str(),
        "edge:source#20:Справочник;target#12:abcdefghijkl;kind:contains"
    );
    assert_eq!(edge_id("", "", EdgeKind::Grants).as_str(), "edge:source#0:;target#0:;kind:grants");
    assert_eq!(edge_kind_code(EdgeKind::Writes), "writes");
}

#[test]
fn producer_id_preserves_canonical_value() {
    let producer = ProducerId::new("oneagent.graph.metadata-contributor");

    assert_eq!(producer.as_str(), "oneagent.graph.metadata-contributor");
    assert_eq!(producer.to_string(), "oneagent.graph.metadata-contributor");
}

#[test]
fn producer_id_supports_deterministic_ordering() {
    let first = ProducerId::new("oneagent.graph.bsl-declaration-contributor");
    let second = ProducerId::new("oneagent.graph.metadata-contributor");
    let mut producers = vec![second, first];

    producers.sort();

    assert_eq!(
        producers.into_iter().map(ProducerId::into_inner).collect::<Vec<_>>(),
        vec![
            "oneagent.graph.bsl-declaration-contributor",
            "oneagent.graph.metadata-contributor"
        ]
    );
}

#[test]
fn provenance_preserves_fact_metadata() {
    let source = EntityId::new("oneagent://source/modules/Sales.bsl").expect("source must be valid");
    let producer = ProducerId::new("oneagent.graph.bsl-reference-contributor");
    let provenance = Provenance::new(
        Some(source.clone()),
        producer.clone(),
        FactOrigin::Resolved,
        Confidence::High,
        ResolutionState::Resolved,
    );

    assert_eq!(provenance.source(), Some(&source));
    assert_eq!(provenance.producer(), &producer);
    assert_eq!(provenance.origin(), FactOrigin::Resolved);
    assert_eq!(provenance.confidence(), Confidence::High);
    assert_eq!(provenance.resolution(), ResolutionState::Resolved);
}

#[test]
fn provenance_allows_absent_source() {
    let provenance = Provenance::new(
        None,
        ProducerId::new("oneagent.graph.derived-dependency-analyzer"),
        FactOrigin::Derived,
        Confidence::Medium,
        ResolutionState::NotApplicable,
    );

    assert_eq!(provenance.source(), None);
    assert_eq!(provenance.origin(), FactOrigin::Derived);
    assert_eq!(provenance.confidence(), Confidence::Medium);
    assert_eq!(provenance.resolution(), ResolutionState::NotApplicable);
}

#[test]
fn provenance_enums_include_required_states() {
    assert_eq!(FactOrigin::Declared, FactOrigin::Declared);
    assert_eq!(FactOrigin::Parsed, FactOrigin::Parsed);
    assert_eq!(FactOrigin::External, FactOrigin::External);

    assert_eq!(Confidence::Exact, Confidence::Exact);
    assert_eq!(Confidence::Low, Confidence::Low);
    assert_eq!(Confidence::Unknown, Confidence::Unknown);

    assert_eq!(ResolutionState::Unresolved, ResolutionState::Unresolved);
    assert_eq!(ResolutionState::Partial, ResolutionState::Partial);
    assert_eq!(ResolutionState::Ambiguous, ResolutionState::Ambiguous);
}

#[test]
fn diagnostic_code_is_stable() {
    assert_eq!(
        SemanticDiagnosticCode::ReferenceMalformedFormat.as_str(),
        "semantic.reference.malformed_format"
    );
    assert_eq!(
        SemanticDiagnosticCode::ReferenceUnsupportedPrefix.as_str(),
        "semantic.reference.unsupported_prefix"
    );
    assert_eq!(SemanticDiagnosticCode::ReferenceUnresolved.as_str(), "semantic.reference.unresolved");
    assert_eq!(SemanticDiagnosticCode::ReferenceAmbiguous.as_str(), "semantic.reference.ambiguous");
    assert_eq!(
        SemanticDiagnosticCode::ReferenceIncompatibleKind.as_str(),
        "semantic.reference.incompatible_kind"
    );
    assert_eq!(
        SemanticDiagnosticCode::ReferenceInvalidOwner.as_str(),
        "semantic.reference.invalid_owner"
    );
    assert_eq!(
        SemanticDiagnosticCode::DuplicateSemanticEdgeRequest.as_str(),
        "semantic.edge.duplicate_request"
    );
}
