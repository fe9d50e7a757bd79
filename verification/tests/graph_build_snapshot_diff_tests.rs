use oneagent::entity::{EntityId, EntityName};
use oneagent::graph::build_diff::{
    CountChangeDirection, DiagnosticChangeKind, DiagnosticModifiedAspect, ResolutionStatisticsMetric,
    SemanticGraphBuildDiff,
};
use oneagent::graph::diagnostic::{
    SemanticDiagnostic, SemanticDiagnosticCode, SemanticDiagnosticKind, SemanticDiagnosticSeverity,
};
use oneagent::graph::diagnostic_diff::DiagnosticDiff;
use oneagent::graph::kind::NodeKind;
use oneagent::graph::node::GraphNode;
use oneagent::graph::provenance::{Confidence, FactOrigin, ProducerId, Provenance, ResolutionState};
use oneagent::graph::report::{ProvenanceCoverageSummary, SemanticGraphReport, SemanticReferenceStatistics};
use oneagent::graph::resolution::SemanticReference;
use oneagent::graph::semantic_graph::SemanticGraph;

fn id(value: &str) -> EntityId {
    EntityId::new(value).expect("identifier must be valid")
}

fn name(value: &str) -> EntityName {
    EntityName::new(value).expect("name must be valid")
}

fn provenance(source: &str) -> Provenance {
    Provenance::new(
        Some(id(source)),
        ProducerId::new("oneagent.graph.build-diff.tests"),
        FactOrigin::Declared,
        Confidence::Exact,
        ResolutionState::NotApplicable,
    )
}

fn graph_with_node(id_value: &str, name_value: &str) -> SemanticGraph {
    let mut graph = SemanticGraph::new();
    graph.insert_node(GraphNode::new(id(id_value), name(name_value), NodeKind::Module));
    graph
}

fn diagnostic(message: &str) -> SemanticDiagnostic {
    SemanticDiagnostic::new(
        SemanticDiagnosticCode::ReferenceUnresolved,
        SemanticDiagnosticSeverity::Error,
        SemanticDiagnosticKind::UnresolvedTarget,
        message,
        SemanticReference::Name(name("Missing")),
    )
    .with_source_node(id("source.node"))
    .with_expected_kinds(vec![NodeKind::Module])
}

fn no_statistics() -> SemanticReferenceStatistics {
    SemanticReferenceStatistics::new(0, 0, 0, 0, 0, 0, 0, 0, 0, 0, 0)
}

fn empty_report() -> SemanticGraphReport {
    SemanticGraphReport::new([0; 12], Vec::new(), Vec::new(), Vec::new(), Vec::new(), Vec::new())
}

fn no_coverage() -> ProvenanceCoverageSummary {
    ProvenanceCoverageSummary::new(0, 0, 0, 0, 0, 0, 0, 0)
}

fn build_diff(
    previous: &SemanticGraph,
    previous_diagnostics: &[SemanticDiagnostic],
    previous_resolution: SemanticReferenceStatistics,
    current: &SemanticGraph,
    current_diagnostics: &[SemanticDiagnostic],
    current_resolution: SemanticReferenceStatistics,
) -> SemanticGraphBuildDiff {
    SemanticGraphBuildDiff::between(
        previous,
        previous_diagnostics,
        previous_resolution,
        &empty_report(),
        &no_coverage(),
        current,
        current_diagnostics,
        current_resolution,
        &empty_report(),
        &no_coverage(),
    )
}

#[test]
fn empty_build_results_create_empty_diff() {
    let graph = SemanticGraph::new();
    let diff = build_diff(&graph, &[], no_statistics(), &graph, &[], no_statistics());

    assert!(diff.is_empty());
    assert_eq!(diff.summary().total_changes(), 0);
}

#[test]
fn graph_diff_is_included_in_build_diff_summary() {
    let previous = graph_with_node("node.previous", "Previous");
    let current = graph_with_node("node.current", "Current");
    let diff = build_diff(&previous, &[], no_statistics(), &current, &[], no_statistics());

    assert_eq!(diff.graph().added_nodes().len(), 1);
    assert_eq!(diff.graph().removed_nodes().len(), 1);
    assert_eq!(diff.summary().node_changes(), 2);
}

#[test]
fn diagnostics_are_added_removed_and_modified_by_identity() {
    let graph = SemanticGraph::new();
    let mut previous_diagnostic = diagnostic("previous message");
    let mut current_diagnostic =
        diagnostic("current message").with_provenance(vec![provenance("diagnostic.current")]);
    current_diagnostic = current_diagnostic.with_actual_kind(NodeKind::Function);
    previous_diagnostic = previous_diagnostic.with_provenance(vec![provenance("diagnostic.previous")]);
    let added = SemanticDiagnostic::new(
        SemanticDiagnosticCode::ReferenceAmbiguous,
        SemanticDiagnosticSeverity::Error,
        SemanticDiagnosticKind::AmbiguousTarget,
        "added",
        SemanticReference::Name(name("Ambiguous")),
    );
    let removed = SemanticDiagnostic::new(
        SemanticDiagnosticCode::ReferenceInvalidOwner,
        SemanticDiagnosticSeverity::Error,
        SemanticDiagnosticKind::InvalidOwnerReference,
        "removed",
        SemanticReference::OwnedChild { owner: id("owner"), child: id("child") },
    );

    let diff = build_diff(
        &graph,
        &[removed.clone(), previous_diagnostic],
        no_statistics(),
        &graph,
        &[current_diagnostic, added.clone()],
        no_statistics(),
    );

    assert_eq!(diff.diagnostics().added().len(), 1);
    assert_eq!(diff.diagnostics().removed().len(), 1);
    assert_eq!(diff.diagnostics().modified().len(), 1);
    assert_eq!(diff.diagnostics().added()[0].kind(), DiagnosticChangeKind::Added);
    assert_eq!(
        diff.diagnostics().modified()[0].modified_aspects(),
        &[
            DiagnosticModifiedAspect::Message,
            DiagnosticModifiedAspect::ActualKind,
            DiagnosticModifiedAspect::Provenance
        ]
    );
    assert_eq!(diff.summary().diagnostic_changes(), 3);
}

#[test]
fn diagnostics_input_order_does_not_affect_diff() {
    let graph = SemanticGraph::new();
    let first = diagnostic("first");
    let second = SemanticDiagnostic::new(
        SemanticDiagnosticCode::ReferenceAmbiguous,
        SemanticDiagnosticSeverity::Error,
        SemanticDiagnosticKind::AmbiguousTarget,
        "second",
        SemanticReference::Name(name("Ambiguous")),
    );

    let left = build_diff(&graph, &[first.clone(), second.clone()], no_statistics(), &graph, &[], no_statistics());
    let right = build_diff(&graph, &[second, first], no_statistics(), &graph, &[], no_statistics());

    assert_eq!(left, right);
}

#[test]
fn resolution_statistics_track_increase_and_decrease_without_underflow() {
    let graph = SemanticGraph::new();
    // Two resolved references, each with provenance.
    let previous_statistics = SemanticReferenceStatistics::new(2, 0, 0, 2, 0, 0, 0, 0, 0, 2, 0);
    // One malformed, one unsupported, one resolved, one unresolved and one
    // ambiguous reference, each with provenance.
    let current_statistics = SemanticReferenceStatistics::new(5, 1, 1, 1, 1, 1, 0, 0, 0, 5, 0);

    let diff = build_diff(&graph, &[], previous_statistics, &graph, &[], current_statistics);

    let resolved = diff
        .resolution()
        .changed_metrics()
        .iter()
        .find(|change| *change.key() == ResolutionStatisticsMetric::ResolvedReferences)
        .expect("resolved count must change");

    assert_eq!(resolved.previous(), 2);
    assert_eq!(resolved.current(), 1);
    assert_eq!(resolved.delta().direction(), CountChangeDirection::Decreased);
    assert_eq!(resolved.delta().magnitude(), 1);
    for metric in [
        ResolutionStatisticsMetric::MalformedFormatReferences,
        ResolutionStatisticsMetric::UnsupportedPrefixReferences,
    ] {
        let change = diff
            .resolution()
            .changed_metrics()
            .iter()
            .find(|change| *change.key() == metric)
            .expect("new typed outcome count must change");
        assert_eq!(change.previous(), 0);
        assert_eq!(change.current(), 1);
        assert_eq!(change.delta().direction(), CountChangeDirection::Increased);
    }
}

#[test]
fn reverse_comparison_inverts_direction() {
    let previous = graph_with_node("node.previous", "Previous");
    let current = graph_with_node("node.current", "Current");

    let forward = build_diff(&previous, &[], no_statistics(), &current, &[], no_statistics());
    let reverse = build_diff(&current, &[], no_statistics(), &previous, &[], no_statistics());

    assert_eq!(forward.graph().added_nodes()[0].id().as_str(), "node.current");
    assert_eq!(reverse.graph().added_nodes()[0].id().as_str(), "node.previous");
}

#[test]
fn repeated_build_comparison_is_identical() {
    let previous = graph_with_node("node.previous", "Previous");
    let current = graph_with_node("node.current", "Current");
    let first = build_diff(&previous, &[diagnostic("a")], no_statistics(), &current, &[], no_statistics());
    let second = build_diff(&previous, &[diagnostic("a")], no_statistics(), &current, &[], no_statistics());

    assert_eq!(first, second);
    assert_eq!(first.summary().total_changes(), 3);
}

#[test]
fn diagnostics_sharing_an_identity_keep_the_last_in_diagnostic_order() {
    let early = diagnostic("a message");
    let late = diagnostic("b message");
    let diff = DiagnosticDiff::between(&[late.clone(), early.clone()], &[early.clone()]);

    assert!(diff.added().is_empty());
    assert!(diff.removed().is_empty());
    assert_eq!(diff.modified().len(), 1);
    assert_eq!(diff.modified()[0].previous(), Some(&late));
    assert_eq!(diff.modified()[0].current(), Some(&early));
    assert_eq!(diff.modified()[0].modified_aspects(), &[DiagnosticModifiedAspect::Message]);
    assert_eq!(diff.modified()[0].identity().code(), SemanticDiagnosticCode::ReferenceUnresolved);
    assert_eq!(diff.summary().total_changes(), 1);
}

#[test]
fn provenance_order_and_repeats_do_not_modify_a_diagnostic() {
    let previous = diagnostic("same").with_provenance(vec![provenance("a"), provenance("b")]);
    let current = diagnostic("same").with_provenance(vec![provenance("b"), provenance("a"), provenance("b")]);
    let diff = DiagnosticDiff::between(&[previous], &[current]);

    assert_eq!(diff.summary().total_changes(), 0);
}

#[test]
fn build_diff_of_identical_snapshots_is_empty() {
    let graph = graph_with_node("node.same", "Same");
    let diagnostics = [
        diagnostic("one").with_provenance(vec![provenance("a"), provenance("b")]),
        diagnostic("two").with_source_node(id("other.node")),
    ];
    let statistics = SemanticReferenceStatistics::new(3, 1, 0, 2, 0, 0, 0, 0, 0, 3, 0);
    let diff = build_diff(&graph, &diagnostics, statistics, &graph, &diagnostics, statistics);

    assert!(diff.is_empty());
    assert_eq!(diff.summary().total_changes(), 0);
    assert!(diff.diagnostics().added().is_empty());
    assert!(diff.diagnostics().removed().is_empty());
    assert!(diff.diagnostics().modified().is_empty());
}
