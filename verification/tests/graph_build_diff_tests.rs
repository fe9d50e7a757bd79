use oneagent::graph::build_diff::{
    CountChangeDirection, CountDelta, GraphReportDiff, GraphReportMetric, ProvenanceCoverageDiff,
    ProvenanceCoverageMetric, ResolutionStatisticsDiff, ResolutionStatisticsMetric,
};
use oneagent::graph::diagnostic::{SemanticDiagnosticCode, SemanticDiagnosticKind, SemanticDiagnosticSeverity};
use oneagent::graph::kind::{EdgeKind, MetadataKind, NodeKind};
use oneagent::graph::report::{ProvenanceCoverageSummary, SemanticGraphReport, SemanticReferenceStatistics};

fn report(
    scalars: [usize; 12],
    nodes: Vec<(NodeKind, usize)>,
    edges: Vec<(EdgeKind, usize)>,
    codes: Vec<(SemanticDiagnosticCode, usize)>,
) -> SemanticGraphReport {
    SemanticGraphReport::new(
        scalars,
        nodes,
        edges,
        codes,
        vec![(SemanticDiagnosticSeverity::Error, 1)],
        vec![(SemanticDiagnosticKind::UnresolvedTarget, 1)],
    )
}

#[test]
fn count_delta_has_direction_and_magnitude() {
    let up = CountDelta::between(2, 7).expect("counters differ");
    assert_eq!(up.direction(), CountChangeDirection::Increased);
    assert_eq!(up.magnitude(), 5);
    let down = CountDelta::between(7, 2).expect("counters differ");
    assert_eq!(down.direction(), CountChangeDirection::Decreased);
    assert_eq!(down.magnitude(), 5);
    assert!(CountDelta::between(3, 3).is_none());
}

#[test]
fn resolution_statistics_diff_reports_changed_counters_in_order() {
    let previous = SemanticReferenceStatistics::new(5, 0, 0, 3, 2, 0, 0, 0, 0, 5, 0);
    let current = SemanticReferenceStatistics::new(6, 0, 0, 5, 1, 0, 0, 0, 0, 6, 0);

    let diff = ResolutionStatisticsDiff::between(previous, current);
    let keys: Vec<ResolutionStatisticsMetric> = diff.changed_metrics().iter().map(|c| *c.key()).collect();

    assert_eq!(keys.len(), 4);
    assert_eq!(keys[0], ResolutionStatisticsMetric::TotalReferences);
    assert_eq!(diff.changed_metrics()[2].delta().direction(), CountChangeDirection::Decreased);
    assert_eq!(diff.changed_metrics()[2].previous(), 2);
    assert_eq!(diff.changed_metrics()[2].current(), 1);
    assert!(ResolutionStatisticsDiff::between(previous, previous).changed_metrics().is_empty());
}

#[test]
fn provenance_coverage_diff_reports_changed_counters() {
    let previous = ProvenanceCoverageSummary::new(1, 2, 3, 4, 5, 6, 7, 8);
    let current = ProvenanceCoverageSummary::new(1, 0, 3, 4, 5, 6, 7, 9);

    let diff = ProvenanceCoverageDiff::between(&previous, &current);

    assert_eq!(diff.changed_metrics().len(), 2);
    assert_eq!(*diff.changed_metrics()[0].key(), ProvenanceCoverageMetric::NodesWithoutProvenance);
    assert_eq!(diff.changed_metrics()[0].delta().magnitude(), 2);
    assert_eq!(*diff.changed_metrics()[1].key(), ProvenanceCoverageMetric::ReferencesWithoutProvenance);
    assert_eq!(diff.changed_metrics()[1].delta().direction(), CountChangeDirection::Increased);
}

#[test]
fn report_diff_reports_scalar_and_distribution_changes_in_key_order() {
    let previous = report(
        [3, 2, 1, 0, 3, 0, 2, 0, 0, 0, 1, 0],
        vec![(NodeKind::Module, 2), (NodeKind::Metadata(MetadataKind::Catalog), 1)],
        vec![(EdgeKind::Calls, 2)],
        vec![(SemanticDiagnosticCode::ReferenceUnresolved, 1)],
    );
    let current = report(
        [4, 2, 1, 0, 4, 0, 2, 0, 0, 0, 1, 0],
        vec![(NodeKind::Module, 2), (NodeKind::Function, 1), (NodeKind::Metadata(MetadataKind::Catalog), 1)],
        vec![(EdgeKind::Calls, 1), (EdgeKind::Contains, 1)],
        vec![(SemanticDiagnosticCode::ReferenceUnresolved, 1)],
    );

    let diff = GraphReportDiff::between(&previous, &current);

    let scalars: Vec<GraphReportMetric> = diff.scalar_metrics().iter().map(|c| *c.key()).collect();
    assert_eq!(scalars, vec![GraphReportMetric::TotalNodes, GraphReportMetric::NodesWithProvenance]);
    assert_eq!(diff.nodes_by_kind().len(), 1);
    assert_eq!(*diff.nodes_by_kind()[0].key(), NodeKind::Function);
    assert_eq!(diff.nodes_by_kind()[0].previous(), 0);
    assert_eq!(diff.nodes_by_kind()[0].current(), 1);
    let edges: Vec<EdgeKind> = diff.edges_by_kind().iter().map(|c| *c.key()).collect();
    assert_eq!(edges, vec![EdgeKind::Contains, EdgeKind::Calls]);
    assert_eq!(diff.edges_by_kind()[1].delta().direction(), CountChangeDirection::Decreased);
    assert!(diff.diagnostics_by_code().is_empty());
    assert!(diff.diagnostics_by_severity().is_empty());
    assert!(diff.diagnostics_by_kind().is_empty());
    assert_eq!(diff.changed_metric_count(), 5);
}

#[test]
fn reverse_report_diff_inverts_directions() {
    let previous = report([1; 12], vec![(NodeKind::Query, 1)], vec![], vec![]);
    let current = report([2; 12], vec![], vec![(EdgeKind::Reads, 3)], vec![]);

    let forward = GraphReportDiff::between(&previous, &current);
    let reverse = GraphReportDiff::between(&current, &previous);

    assert_eq!(forward.scalar_metrics().len(), 12);
    assert_eq!(reverse.scalar_metrics().len(), 12);
    assert_eq!(forward.scalar_metrics()[0].delta().direction(), CountChangeDirection::Increased);
    assert_eq!(reverse.scalar_metrics()[0].delta().direction(), CountChangeDirection::Decreased);
    assert_eq!(*forward.nodes_by_kind()[0].key(), NodeKind::Query);
    assert_eq!(forward.nodes_by_kind()[0].delta().direction(), CountChangeDirection::Decreased);
    assert_eq!(reverse.edges_by_kind()[0].delta().magnitude(), 3);
    assert_eq!(GraphReportDiff::between(&previous, &previous).changed_metric_count(), 0);
}
