use oneagent::entity::{EntityId, EntityName};
use oneagent::graph::diagnostic::{
    SemanticDiagnostic, SemanticDiagnosticCode, SemanticDiagnosticKind, SemanticDiagnosticSeverity,
};
use oneagent::graph::kind::{MetadataKind, NodeKind};
use oneagent::graph::provenance::{Confidence, FactOrigin, ProducerId, Provenance, ResolutionState};
use oneagent::graph::resolution::{ResolutionError, SemanticReference};

fn id(value: &str) -> EntityId {
    EntityId::new(value).expect("identifier must be valid")
}

fn name(value: &str) -> EntityName {
    EntityName::new(value).expect("name must be valid")
}

fn provenance(source: &str) -> Provenance {
    Provenance::new(
        Some(id(source)),
        ProducerId::new("oneagent.graph.tests"),
        FactOrigin::Resolved,
        Confidence::High,
        ResolutionState::Unresolved,
    )
}

#[test]
fn diagnostic_order_is_deterministic() {
    let first = SemanticDiagnostic::new(
        SemanticDiagnosticCode::ReferenceUnresolved,
        SemanticDiagnosticSeverity::Error,
        SemanticDiagnosticKind::UnresolvedTarget,
        "first",
        SemanticReference::Name(name("MissingA")),
    )
    .with_source_node(id("source.a"))
    .with_provenance(vec![provenance("source.a")]);
    let second = SemanticDiagnostic::new(
        SemanticDiagnosticCode::ReferenceUnresolved,
        SemanticDiagnosticSeverity::Error,
        SemanticDiagnosticKind::UnresolvedTarget,
        "second",
        SemanticReference::Name(name("MissingB")),
    )
    .with_source_node(id("source.b"))
    .with_expected_kinds(vec![NodeKind::Attribute])
    .with_provenance(vec![provenance("source.b")]);
    let mut diagnostics = vec![second.clone(), first.clone()];

    diagnostics.sort();

    assert_eq!(diagnostics, vec![first, second]);
}

#[test]
fn diagnostic_from_resolution_error_preserves_kind_and_code() {
    let unresolved = SemanticDiagnostic::from_resolution_error(ResolutionError::MissingTarget {
        reference: SemanticReference::Name(name("Missing")),
    });
    let ambiguous = SemanticDiagnostic::from_resolution_error(ResolutionError::AmbiguousTarget {
        reference: SemanticReference::Name(name("Duplicate")),
        candidates: vec![id("target.b"), id("target.a")],
    });
    let incompatible = SemanticDiagnostic::from_resolution_error(ResolutionError::IncompatibleNodeKind {
        id: id("target.catalog"),
        expected: vec![NodeKind::Metadata(MetadataKind::Document)],
        actual: NodeKind::Metadata(MetadataKind::Catalog),
    });
    let invalid_owner = SemanticDiagnostic::from_resolution_error(ResolutionError::InvalidOwnerReference {
        owner: id("owner.a"),
        child: id("child.b"),
    });

    assert_eq!(unresolved.code(), SemanticDiagnosticCode::ReferenceUnresolved);
    assert_eq!(unresolved.kind(), SemanticDiagnosticKind::UnresolvedTarget);
    assert_eq!(unresolved.severity(), SemanticDiagnosticSeverity::Error);
    assert_eq!(ambiguous.code(), SemanticDiagnosticCode::ReferenceAmbiguous);
    assert_eq!(ambiguous.candidates(), &[id("target.a"), id("target.b")]);
    assert_eq!(incompatible.code(), SemanticDiagnosticCode::ReferenceIncompatibleKind);
    assert_eq!(incompatible.actual_kind(), Some(NodeKind::Metadata(MetadataKind::Catalog)));
    assert_eq!(invalid_owner.code(), SemanticDiagnosticCode::ReferenceInvalidOwner);
    assert_eq!(invalid_owner.kind(), SemanticDiagnosticKind::InvalidOwnerReference);
}

#[test]
fn resolution_diagnostic_defaults_reference_from_error() {
    let incompatible = SemanticDiagnostic::from_resolution_error(ResolutionError::IncompatibleNodeKind {
        id: id("target.catalog"),
        expected: vec![
            NodeKind::Metadata(MetadataKind::Document),
            NodeKind::Attribute,
            NodeKind::Attribute,
        ],
        actual: NodeKind::Metadata(MetadataKind::Catalog),
    });
    assert_eq!(incompatible.reference(), &SemanticReference::NodeId("target.catalog".to_string()));
    assert_eq!(incompatible.expected_kinds().len(), 2);
    assert_eq!(incompatible.message(), "semantic reference target has incompatible kind");

    let owner = SemanticDiagnostic::from_resolution_error(ResolutionError::InvalidOwnerReference {
        owner: id("owner.a"),
        child: id("child.b"),
    });
    assert_eq!(
        owner.reference(),
        &SemanticReference::OwnedChild { owner: id("owner.a"), child: id("child.b") }
    );

    let with_context = SemanticDiagnostic::from_resolution_error_with_reference(
        ResolutionError::MissingTarget { reference: SemanticReference::Name(name("Missing")) },
        Some(SemanticReference::Raw("Документ.Заказ".to_string())),
    );
    assert_eq!(with_context.reference(), &SemanticReference::Raw("Документ.Заказ".to_string()));
    assert_eq!(with_context.source_node(), None);
    assert!(with_context.provenance().is_empty());
}
