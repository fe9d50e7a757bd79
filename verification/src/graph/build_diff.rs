//! Build-level diff counters and typed counter deltas.

use vstd::prelude::*;

use crate::graph::diff::GraphDiffSummary;
use crate::graph::diagnostic::{SemanticDiagnosticCode, SemanticDiagnosticKind, SemanticDiagnosticSeverity};
use crate::graph::kind::{EdgeKind, NodeKind};
use crate::graph::diagnostic::SemanticDiagnostic;
use crate::graph::diagnostic_diff::{
    diagnostic_diff, diagnostic_views, law_diagnostic_diff_with_itself_is_empty, DiagnosticDiff, DiagnosticDiffView,
};
use crate::graph::diagnostic::DiagnosticView;
use crate::graph::diff::{graph_diff, lemma_diff_with_itself_is_empty, DiffView, SemanticGraphDiff};
use crate::graph::semantic_graph::{graph_wf, GraphView};
use crate::graph::report::{
    dist_count, distribution_count, DistributionKey, GraphReportView, ProvenanceCoverageSummary, SemanticGraphReport,
    SemanticReferenceStatistics,
};
use crate::graph::semantic_graph::SemanticGraph;

verus! {

/// Category of a semantic diagnostic change.
#[derive(Debug, Clone, Copy, PartialEq, Eq, PartialOrd, Ord, Hash, Structural)]
pub enum DiagnosticChangeKind {
    /// The diagnostic exists only in the current build result.
    Added,
    /// The diagnostic exists only in the previous build result.
    Removed,
    /// The diagnostic exists in both results but observable content changed.
    Modified,
}

/// Modified diagnostic aspect.
#[derive(Debug, Clone, Copy, PartialEq, Eq, PartialOrd, Ord, Hash, Structural)]
pub enum DiagnosticModifiedAspect {
    /// Diagnostic severity changed.
    Severity,
    /// Human-readable message changed.
    Message,
    /// Expected node kind list changed.
    ExpectedKinds,
    /// Actual node kind changed.
    ActualKind,
    /// Candidate target list changed.
    Candidates,
    /// Diagnostic provenance changed after order-insensitive normalization.
    Provenance,
}

/// Compact diagnostic diff counters.
#[derive(Debug, Clone, Copy, PartialEq, Eq)]
pub struct DiagnosticDiffSummary {
    added: usize,
    removed: usize,
    modified: usize,
}

impl View for DiagnosticDiffSummary {
    type V = (usize, usize, usize);

    closed spec fn view(&self) -> (usize, usize, usize) {
        (self.added, self.removed, self.modified)
    }
}

impl DiagnosticDiffSummary {
    /// Creates diagnostic diff counters.
    pub fn new(added: usize, removed: usize, modified: usize) -> (r: Self)
        ensures
            r@ == (added, removed, modified),
    {
        DiagnosticDiffSummary { added, removed, modified }
    }

    /// Returns added diagnostics.
    pub fn added(self) -> (r: usize)
        ensures
            r == self@.0,
    {
        self.added
    }

    /// Returns removed diagnostics.
    pub fn removed(self) -> (r: usize)
        ensures
            r == self@.1,
    {
        self.removed
    }

    /// Returns modified diagnostics.
    pub fn modified(self) -> (r: usize)
        ensures
            r == self@.2,
    {
        self.modified
    }

    /// Returns added + removed + modified diagnostics.
    pub fn total_changes(self) -> (r: usize)
        requires
            self@.0 + self@.1 + self@.2 <= usize::MAX,
        ensures
            r == self@.0 + self@.1 + self@.2,
    {
        self.added + self.removed + self.modified
    }
}

/// Build-level diff counters: changed node and edge records, diagnostic
/// records and changed metric entries.
#[derive(Debug, Clone, Copy, PartialEq, Eq)]
pub struct BuildDiffSummary {
    nodes: usize,
    edges: usize,
    diagnostics: usize,
    resolution_metrics: usize,
    report_metrics: usize,
    provenance_coverage: usize,
}

impl View for BuildDiffSummary {
    type V = (usize, usize, usize, usize, usize, usize);

    closed spec fn view(&self) -> (usize, usize, usize, usize, usize, usize) {
        (
            self.nodes,
            self.edges,
            self.diagnostics,
            self.resolution_metrics,
            self.report_metrics,
            self.provenance_coverage,
        )
    }
}

impl BuildDiffSummary {
    /// Combines graph and diagnostic counters with changed metric counts.
    pub fn new(
        graph: GraphDiffSummary,
        diagnostics: DiagnosticDiffSummary,
        resolution_metric_changes: usize,
        report_metric_changes: usize,
        provenance_coverage_changes: usize,
    ) -> (r: Self)
        requires
            graph@.0 + graph@.1 + graph@.2 <= usize::MAX,
            graph@.3 + graph@.4 + graph@.5 <= usize::MAX,
            diagnostics@.0 + diagnostics@.1 + diagnostics@.2 <= usize::MAX,
        ensures
            r@ == (
                (graph@.0 + graph@.1 + graph@.2) as usize,
                (graph@.3 + graph@.4 + graph@.5) as usize,
                (diagnostics@.0 + diagnostics@.1 + diagnostics@.2) as usize,
                resolution_metric_changes,
                report_metric_changes,
                provenance_coverage_changes,
            ),
    {
        BuildDiffSummary {
            nodes: graph.nodes_added() + graph.nodes_removed() + graph.nodes_modified(),
            edges: graph.edges_added() + graph.edges_removed() + graph.edges_modified(),
            diagnostics: diagnostics.total_changes(),
            resolution_metrics: resolution_metric_changes,
            report_metrics: report_metric_changes,
            provenance_coverage: provenance_coverage_changes,
        }
    }

    /// Returns changed graph node records.
    pub fn node_changes(self) -> (r: usize)
        ensures
            r == self@.0,
    {
        self.nodes
    }

    /// Returns changed graph edge records.
    pub fn edge_changes(self) -> (r: usize)
        ensures
            r == self@.1,
    {
        self.edges
    }

    /// Returns added, removed and modified diagnostics.
    pub fn diagnostic_changes(self) -> (r: usize)
        ensures
            r == self@.2,
    {
        self.diagnostics
    }

    /// Returns changed resolution metric entries.
    pub fn resolution_metric_changes(self) -> (r: usize)
        ensures
            r == self@.3,
    {
        self.resolution_metrics
    }

    /// Returns changed graph quality report metric entries.
    pub fn report_metric_changes(self) -> (r: usize)
        ensures
            r == self@.4,
    {
        self.report_metrics
    }

    /// Returns changed provenance coverage metric entries.
    pub fn provenance_coverage_changes(self) -> (r: usize)
        ensures
            r == self@.5,
    {
        self.provenance_coverage
    }

    /// Returns the total number of changed records and changed metric entries.
    pub fn total_changes(self) -> (r: usize)
        requires
            self@.0 + self@.1 + self@.2 + self@.3 + self@.4 + self@.5 <= usize::MAX,
        ensures
            r == self@.0 + self@.1 + self@.2 + self@.3 + self@.4 + self@.5,
    {
        self.nodes + self.edges + self.diagnostics + self.resolution_metrics + self.report_metrics
            + self.provenance_coverage
    }
}

/// Direction of a counter change.
#[derive(Debug, Clone, Copy, PartialEq, Eq, PartialOrd, Ord, Hash, Structural)]
pub enum CountChangeDirection {
    /// The counter increased.
    Increased,
    /// The counter decreased.
    Decreased,
}

/// Direction and magnitude of the change from `previous` to `current`, or
/// nothing when the counters are equal.
pub open spec fn delta_between(previous: int, current: int) -> Option<(CountChangeDirection, int)> {
    if current > previous {
        Some((CountChangeDirection::Increased, current - previous))
    } else if current < previous {
        Some((CountChangeDirection::Decreased, previous - current))
    } else {
        None
    }
}

/// Safe unsigned counter delta.
#[derive(Debug, Clone, Copy, PartialEq, Eq)]
pub struct CountDelta {
    direction: CountChangeDirection,
    magnitude: usize,
}

impl View for CountDelta {
    type V = (CountChangeDirection, int);

    closed spec fn view(&self) -> (CountChangeDirection, int) {
        (self.direction, self.magnitude as int)
    }
}

impl CountDelta {
    /// Returns the delta between two counters, or `None` when they are equal.
    pub fn between(previous: usize, current: usize) -> (r: Option<Self>)
        ensures
            match r {
                Some(d) => delta_between(previous as int, current as int) == Some(d@),
                None => delta_between(previous as int, current as int) is None,
            },
    {
        if current > previous {
            Some(CountDelta { direction: CountChangeDirection::Increased, magnitude: current - previous })
        } else if current < previous {
            Some(CountDelta { direction: CountChangeDirection::Decreased, magnitude: previous - current })
        } else {
            None
        }
    }

    /// Returns whether the counter increased or decreased.
    pub fn direction(self) -> (r: CountChangeDirection)
        ensures
            r == self@.0,
    {
        self.direction
    }

    /// Returns the absolute counter change magnitude.
    pub fn magnitude(self) -> (r: usize)
        ensures
            r as int == self@.1,
    {
        self.magnitude
    }
}

/// Previous/current values for a changed counter.
#[derive(Debug, Clone, PartialEq, Eq)]
pub struct CountChange<K> {
    key: K,
    previous: usize,
    current: usize,
    delta: CountDelta,
}

/// Count change view: key, previous, current, delta.
pub type CountChangeView<K> = (K, int, int, (CountChangeDirection, int));

impl<K> View for CountChange<K> {
    type V = CountChangeView<K>;

    closed spec fn view(&self) -> CountChangeView<K> {
        (self.key, self.previous as int, self.current as int, self.delta@)
    }
}

/// The changed counters of `items`, in order, each with its delta.
pub open spec fn count_changes<K>(items: Seq<(K, usize, usize)>) -> Seq<CountChangeView<K>>
    decreases items.len(),
{
    if items.len() == 0 {
        Seq::empty()
    } else {
        let rest = count_changes(items.drop_last());
        let m = items.last();
        match delta_between(m.1 as int, m.2 as int) {
            Some(d) => rest.push((m.0, m.1 as int, m.2 as int, d)),
            None => rest,
        }
    }
}

impl<K> CountChange<K> {
    /// Returns the change record when the counters differ.
    pub fn new(key: K, previous: usize, current: usize) -> (r: Option<Self>)
        ensures
            match r {
                Some(c) => delta_between(previous as int, current as int) matches Some(d) && c@ == (
                    key,
                    previous as int,
                    current as int,
                    d,
                ),
                None => delta_between(previous as int, current as int) is None,
            },
    {
        match CountDelta::between(previous, current) {
            Some(delta) => Some(CountChange { key, previous, current, delta }),
            None => None,
        }
    }

    /// Returns the typed metric or distribution key.
    pub fn key(&self) -> (r: &K)
        ensures
            *r == self@.0,
    {
        &self.key
    }

    /// Returns the previous counter value.
    pub fn previous(&self) -> (r: usize)
        ensures
            r as int == self@.1,
    {
        self.previous
    }

    /// Returns the current counter value.
    pub fn current(&self) -> (r: usize)
        ensures
            r as int == self@.2,
    {
        self.current
    }

    /// Returns the safe unsigned delta.
    pub fn delta(&self) -> (r: CountDelta)
        ensures
            r@ == self@.3,
    {
        self.delta
    }
}

/// Keeps the changed counters of `items`, in order.
fn collect_changes<K: Copy>(items: &Vec<(K, usize, usize)>) -> (r: Vec<CountChange<K>>)
    ensures
        r@.map_values(|c: CountChange<K>| c@) == count_changes(items@),
{
    let mut result: Vec<CountChange<K>> = Vec::new();
    let mut i: usize = 0;
    while i < items.len()
        invariant
            i <= items@.len(),
            result@.map_values(|c: CountChange<K>| c@) == count_changes(items@.take(i as int)),
        decreases items@.len() - i,
    {
        let (key, previous, current) = items[i];
        let ghost before = result@.map_values(|c: CountChange<K>| c@);
        assert(items@.take(i + 1).drop_last() == items@.take(i as int));
        match CountChange::new(key, previous, current) {
            Some(change) => {
                result.push(change);
                assert(result@.map_values(|c: CountChange<K>| c@) == before.push(change@));
            },
            None => {},
        }
        i = i + 1;
    }
    assert(items@.take(items@.len() as int) == items@);
    result
}

/// Resolution statistics metric key.
#[derive(Debug, Clone, Copy, PartialEq, Eq, PartialOrd, Ord, Hash, Structural)]
pub enum ResolutionStatisticsMetric {
    /// Total processed references.
    TotalReferences,
    /// Raw references with malformed source format.
    MalformedFormatReferences,
    /// Raw references using unsupported source prefixes.
    UnsupportedPrefixReferences,
    /// Successfully resolved references.
    ResolvedReferences,
    /// Unresolved references.
    UnresolvedReferences,
    /// Ambiguous references.
    AmbiguousReferences,
    /// References with incompatible target kind.
    IncompatibleTargetKindReferences,
    /// Invalid owner references.
    InvalidOwnerReferences,
    /// Duplicate edge reference requests.
    DuplicateEdgeRequests,
    /// References with provenance.
    ReferencesWithProvenance,
    /// References without provenance.
    ReferencesWithoutProvenance,
}

/// Resolution metric keys in counter order.
pub open spec fn resolution_metric_at(i: int) -> ResolutionStatisticsMetric {
    if i == 0 {
        ResolutionStatisticsMetric::TotalReferences
    } else if i == 1 {
        ResolutionStatisticsMetric::MalformedFormatReferences
    } else if i == 2 {
        ResolutionStatisticsMetric::UnsupportedPrefixReferences
    } else if i == 3 {
        ResolutionStatisticsMetric::ResolvedReferences
    } else if i == 4 {
        ResolutionStatisticsMetric::UnresolvedReferences
    } else if i == 5 {
        ResolutionStatisticsMetric::AmbiguousReferences
    } else if i == 6 {
        ResolutionStatisticsMetric::IncompatibleTargetKindReferences
    } else if i == 7 {
        ResolutionStatisticsMetric::InvalidOwnerReferences
    } else if i == 8 {
        ResolutionStatisticsMetric::DuplicateEdgeRequests
    } else if i == 9 {
        ResolutionStatisticsMetric::ReferencesWithProvenance
    } else {
        ResolutionStatisticsMetric::ReferencesWithoutProvenance
    }
}

fn resolution_metric(i: usize) -> (r: ResolutionStatisticsMetric)
    ensures
        r == resolution_metric_at(i as int),
{
    if i == 0 {
        ResolutionStatisticsMetric::TotalReferences
    } else if i == 1 {
        ResolutionStatisticsMetric::MalformedFormatReferences
    } else if i == 2 {
        ResolutionStatisticsMetric::UnsupportedPrefixReferences
    } else if i == 3 {
        ResolutionStatisticsMetric::ResolvedReferences
    } else if i == 4 {
        ResolutionStatisticsMetric::UnresolvedReferences
    } else if i == 5 {
        ResolutionStatisticsMetric::AmbiguousReferences
    } else if i == 6 {
        ResolutionStatisticsMetric::IncompatibleTargetKindReferences
    } else if i == 7 {
        ResolutionStatisticsMetric::InvalidOwnerReferences
    } else if i == 8 {
        ResolutionStatisticsMetric::DuplicateEdgeRequests
    } else if i == 9 {
        ResolutionStatisticsMetric::ReferencesWithProvenance
    } else {
        ResolutionStatisticsMetric::ReferencesWithoutProvenance
    }
}

/// The keyed previous/current pairs of the eleven resolution counters.
pub open spec fn resolution_pairs(previous: Seq<usize>, current: Seq<usize>) -> Seq<
    (ResolutionStatisticsMetric, usize, usize),
> {
    Seq::new(11, |i: int| (resolution_metric_at(i), previous[i], current[i]))
}

/// Deterministic reference resolution statistics diff.
#[derive(Debug, Clone, PartialEq, Eq)]
pub struct ResolutionStatisticsDiff {
    changed_metrics: Vec<CountChange<ResolutionStatisticsMetric>>,
}

impl View for ResolutionStatisticsDiff {
    type V = Seq<CountChangeView<ResolutionStatisticsMetric>>;

    closed spec fn view(&self) -> Seq<CountChangeView<ResolutionStatisticsMetric>> {
        self.changed_metrics@.map_values(|c: CountChange<ResolutionStatisticsMetric>| c@)
    }
}

impl ResolutionStatisticsDiff {
    /// Compares reference resolution statistics: the changed counters in
    /// metric order, each with its delta.
    pub fn between(
        previous: SemanticReferenceStatistics,
        current: SemanticReferenceStatistics,
    ) -> (r: Self)
        ensures
            r@ == count_changes(resolution_pairs(previous@, current@)),
    {
        let mut items: Vec<(ResolutionStatisticsMetric, usize, usize)> = Vec::new();
        let mut i: usize = 0;
        while i < 11
            invariant
                i <= 11,
                items@ == resolution_pairs(previous@, current@).take(i as int),
            decreases 11 - i,
        {
            items.push((resolution_metric(i), previous.counter(i), current.counter(i)));
            i = i + 1;
            assert(items@ =~= resolution_pairs(previous@, current@).take(i as int));
        }
        assert(resolution_pairs(previous@, current@).take(11) == resolution_pairs(
            previous@,
            current@,
        ));
        ResolutionStatisticsDiff { changed_metrics: collect_changes(&items) }
    }

    /// Returns changed resolution metrics.
    pub fn changed_metrics(&self) -> (r: &[CountChange<ResolutionStatisticsMetric>])
        ensures
            r@.map_values(|c: CountChange<ResolutionStatisticsMetric>| c@) == self@,
    {
        self.changed_metrics.as_slice()
    }
}

/// Graph quality scalar metric key.
#[derive(Debug, Clone, Copy, PartialEq, Eq, PartialOrd, Ord, Hash, Structural)]
pub enum GraphReportMetric {
    /// Total graph nodes.
    TotalNodes,
    /// Total graph edges.
    TotalEdges,
    /// Total diagnostics in successful build result.
    TotalDiagnostics,
    /// Recoverable diagnostics in successful build result.
    RecoverableDiagnostics,
    /// Nodes with provenance.
    NodesWithProvenance,
    /// Nodes without provenance.
    NodesWithoutProvenance,
    /// Edges with provenance.
    EdgesWithProvenance,
    /// Edges without provenance.
    EdgesWithoutProvenance,
    /// Edges with missing source node.
    EdgesMissingSources,
    /// Edges with missing target node.
    EdgesMissingTargets,
    /// Diagnostics with provenance.
    DiagnosticsWithProvenance,
    /// Diagnostics without provenance.
    DiagnosticsWithoutProvenance,
}

/// Graph report scalar metric keys in counter order.
pub open spec fn report_metric_at(i: int) -> GraphReportMetric {
    if i == 0 {
        GraphReportMetric::TotalNodes
    } else if i == 1 {
        GraphReportMetric::TotalEdges
    } else if i == 2 {
        GraphReportMetric::TotalDiagnostics
    } else if i == 3 {
        GraphReportMetric::RecoverableDiagnostics
    } else if i == 4 {
        GraphReportMetric::NodesWithProvenance
    } else if i == 5 {
        GraphReportMetric::NodesWithoutProvenance
    } else if i == 6 {
        GraphReportMetric::EdgesWithProvenance
    } else if i == 7 {
        GraphReportMetric::EdgesWithoutProvenance
    } else if i == 8 {
        GraphReportMetric::EdgesMissingSources
    } else if i == 9 {
        GraphReportMetric::EdgesMissingTargets
    } else if i == 10 {
        GraphReportMetric::DiagnosticsWithProvenance
    } else {
        GraphReportMetric::DiagnosticsWithoutProvenance
    }
}

fn report_metric(i: usize) -> (r: GraphReportMetric)
    ensures
        r == report_metric_at(i as int),
{
    if i == 0 {
        GraphReportMetric::TotalNodes
    } else if i == 1 {
        GraphReportMetric::TotalEdges
    } else if i == 2 {
        GraphReportMetric::TotalDiagnostics
    } else if i == 3 {
        GraphReportMetric::RecoverableDiagnostics
    } else if i == 4 {
        GraphReportMetric::NodesWithProvenance
    } else if i == 5 {
        GraphReportMetric::NodesWithoutProvenance
    } else if i == 6 {
        GraphReportMetric::EdgesWithProvenance
    } else if i == 7 {
        GraphReportMetric::EdgesWithoutProvenance
    } else if i == 8 {
        GraphReportMetric::EdgesMissingSources
    } else if i == 9 {
        GraphReportMetric::EdgesMissingTargets
    } else if i == 10 {
        GraphReportMetric::DiagnosticsWithProvenance
    } else {
        GraphReportMetric::DiagnosticsWithoutProvenance
    }
}

/// The keyed previous/current pairs of the twelve scalar report counters.
pub open spec fn report_pairs(previous: Seq<usize>, current: Seq<usize>) -> Seq<(GraphReportMetric, usize, usize)> {
    Seq::new(12, |i: int| (report_metric_at(i), previous[i], current[i]))
}

/// The previous/current counts of every key, in key order.
pub open spec fn distribution_pairs<K: DistributionKey>(previous: Seq<(K, usize)>, current: Seq<(K, usize)>) -> Seq<
    (K, usize, usize),
> {
    Seq::new(
        K::spec_key_count(),
        |i: int| (K::spec_key_at(i), dist_count(previous, K::spec_key_at(i)), dist_count(current, K::spec_key_at(i))),
    )
}

/// The changed entries of two distributions in key order; a key absent
/// from one of them counts zero there.
fn diff_distribution<K: DistributionKey>(previous: &[(K, usize)], current: &[(K, usize)]) -> (r: Vec<CountChange<K>>)
    ensures
        r@.map_values(|c: CountChange<K>| c@) == count_changes(distribution_pairs(previous@, current@)),
{
    let ghost pairs = distribution_pairs(previous@, current@);
    let n = K::key_count();
    let mut items: Vec<(K, usize, usize)> = Vec::new();
    let mut i: usize = 0;
    while i < n
        invariant
            i <= n,
            n == K::spec_key_count(),
            pairs == distribution_pairs(previous@, current@),
            items@ == pairs.take(i as int),
        decreases n - i,
    {
        let key = K::key_at(i);
        items.push((key, distribution_count(previous, key), distribution_count(current, key)));
        assert(items@ =~= pairs.take(i + 1));
        i = i + 1;
    }
    assert(pairs.take(n as int) =~= pairs);
    collect_changes(&items)
}

/// Deterministic graph quality report diff.
#[derive(Debug, Clone, PartialEq, Eq)]
pub struct GraphReportDiff {
    scalar_metrics: Vec<CountChange<GraphReportMetric>>,
    nodes_by_kind: Vec<CountChange<NodeKind>>,
    edges_by_kind: Vec<CountChange<EdgeKind>>,
    diagnostics_by_code: Vec<CountChange<SemanticDiagnosticCode>>,
    diagnostics_by_severity: Vec<CountChange<SemanticDiagnosticSeverity>>,
    diagnostics_by_kind: Vec<CountChange<SemanticDiagnosticKind>>,
}

/// Report diff view: scalar changes, then the changes of each distribution.
pub type GraphReportDiffView = (
    Seq<CountChangeView<GraphReportMetric>>,
    Seq<CountChangeView<NodeKind>>,
    Seq<CountChangeView<EdgeKind>>,
    Seq<CountChangeView<SemanticDiagnosticCode>>,
    Seq<CountChangeView<SemanticDiagnosticSeverity>>,
    Seq<CountChangeView<SemanticDiagnosticKind>>,
);

impl View for GraphReportDiff {
    type V = GraphReportDiffView;

    closed spec fn view(&self) -> GraphReportDiffView {
        (
            self.scalar_metrics@.map_values(|c: CountChange<GraphReportMetric>| c@),
            self.nodes_by_kind@.map_values(|c: CountChange<NodeKind>| c@),
            self.edges_by_kind@.map_values(|c: CountChange<EdgeKind>| c@),
            self.diagnostics_by_code@.map_values(|c: CountChange<SemanticDiagnosticCode>| c@),
            self.diagnostics_by_severity@.map_values(|c: CountChange<SemanticDiagnosticSeverity>| c@),
            self.diagnostics_by_kind@.map_values(|c: CountChange<SemanticDiagnosticKind>| c@),
        )
    }
}

/// The changed scalar counters of two reports in metric order, and the
/// changed entries of each distribution in key order, each with its delta.
pub open spec fn report_diff(previous: GraphReportView, current: GraphReportView) -> GraphReportDiffView {
    (
        count_changes(report_pairs(previous.0, current.0)),
        count_changes(distribution_pairs(previous.1, current.1)),
        count_changes(distribution_pairs(previous.2, current.2)),
        count_changes(distribution_pairs(previous.3, current.3)),
        count_changes(distribution_pairs(previous.4, current.4)),
        count_changes(distribution_pairs(previous.5, current.5)),
    )
}

/// The number of changed entries of a report diff.
pub open spec fn report_changed_count(v: GraphReportDiffView) -> nat {
    v.0.len() + v.1.len() + v.2.len() + v.3.len() + v.4.len() + v.5.len()
}

impl GraphReportDiff {
    /// Compares two graph quality reports: the changed scalar counters in
    /// metric order, and the changed entries of each distribution in key
    /// order, each with its delta.
    pub fn between(previous: &SemanticGraphReport, current: &SemanticGraphReport) -> (r: Self)
        ensures
            r@ == report_diff(previous@, current@),
    {
        let mut items: Vec<(GraphReportMetric, usize, usize)> = Vec::new();
        let mut i: usize = 0;
        while i < 12
            invariant
                i <= 12,
                items@ == report_pairs(previous@.0, current@.0).take(i as int),
            decreases 12 - i,
        {
            items.push((report_metric(i), previous.scalar(i), current.scalar(i)));
            i = i + 1;
            assert(items@ =~= report_pairs(previous@.0, current@.0).take(i as int));
        }
        assert(report_pairs(previous@.0, current@.0).take(12) == report_pairs(previous@.0, current@.0));
        GraphReportDiff {
            scalar_metrics: collect_changes(&items),
            nodes_by_kind: diff_distribution(previous.nodes_by_kind(), current.nodes_by_kind()),
            edges_by_kind: diff_distribution(previous.edges_by_kind(), current.edges_by_kind()),
            diagnostics_by_code: diff_distribution(previous.diagnostics_by_code(), current.diagnostics_by_code()),
            diagnostics_by_severity: diff_distribution(
                previous.diagnostics_by_severity(),
                current.diagnostics_by_severity(),
            ),
            diagnostics_by_kind: diff_distribution(previous.diagnostics_by_kind(), current.diagnostics_by_kind()),
        }
    }

    /// Returns changed scalar report metrics.
    pub fn scalar_metrics(&self) -> (r: &[CountChange<GraphReportMetric>])
        ensures
            r@.map_values(|c: CountChange<GraphReportMetric>| c@) == self@.0,
    {
        self.scalar_metrics.as_slice()
    }

    /// Returns changed node distribution entries.
    pub fn nodes_by_kind(&self) -> (r: &[CountChange<NodeKind>])
        ensures
            r@.map_values(|c: CountChange<NodeKind>| c@) == self@.1,
    {
        self.nodes_by_kind.as_slice()
    }

    /// Returns changed edge distribution entries.
    pub fn edges_by_kind(&self) -> (r: &[CountChange<EdgeKind>])
        ensures
            r@.map_values(|c: CountChange<EdgeKind>| c@) == self@.2,
    {
        self.edges_by_kind.as_slice()
    }

    /// Returns changed diagnostic code distribution entries.
    pub fn diagnostics_by_code(&self) -> (r: &[CountChange<SemanticDiagnosticCode>])
        ensures
            r@.map_values(|c: CountChange<SemanticDiagnosticCode>| c@) == self@.3,
    {
        self.diagnostics_by_code.as_slice()
    }

    /// Returns changed diagnostic severity distribution entries.
    pub fn diagnostics_by_severity(&self) -> (r: &[CountChange<SemanticDiagnosticSeverity>])
        ensures
            r@.map_values(|c: CountChange<SemanticDiagnosticSeverity>| c@) == self@.4,
    {
        self.diagnostics_by_severity.as_slice()
    }

    /// Returns changed diagnostic kind distribution entries.
    pub fn diagnostics_by_kind(&self) -> (r: &[CountChange<SemanticDiagnosticKind>])
        ensures
            r@.map_values(|c: CountChange<SemanticDiagnosticKind>| c@) == self@.5,
    {
        self.diagnostics_by_kind.as_slice()
    }

    /// Returns the number of changed report metric entries.
    pub fn changed_metric_count(&self) -> (r: usize)
        requires
            self@.0.len() + self@.1.len() + self@.2.len() + self@.3.len() + self@.4.len() + self@.5.len()
                <= usize::MAX,
        ensures
            r == self@.0.len() + self@.1.len() + self@.2.len() + self@.3.len() + self@.4.len() + self@.5.len(),
    {
        self.scalar_metrics.len() + self.nodes_by_kind.len() + self.edges_by_kind.len()
            + self.diagnostics_by_code.len() + self.diagnostics_by_severity.len() + self.diagnostics_by_kind.len()
    }
}

/// Provenance coverage metric key.
#[derive(Debug, Clone, Copy, PartialEq, Eq, PartialOrd, Ord, Hash, Structural)]
pub enum ProvenanceCoverageMetric {
    /// Nodes with provenance.
    NodesWithProvenance,
    /// Nodes without provenance.
    NodesWithoutProvenance,
    /// Edges with provenance.
    EdgesWithProvenance,
    /// Edges without provenance.
    EdgesWithoutProvenance,
    /// Diagnostics with provenance.
    DiagnosticsWithProvenance,
    /// Diagnostics without provenance.
    DiagnosticsWithoutProvenance,
    /// References with provenance.
    ReferencesWithProvenance,
    /// References without provenance.
    ReferencesWithoutProvenance,
}

/// Provenance coverage metric keys in counter order.
pub open spec fn provenance_metric_at(i: int) -> ProvenanceCoverageMetric {
    if i == 0 {
        ProvenanceCoverageMetric::NodesWithProvenance
    } else if i == 1 {
        ProvenanceCoverageMetric::NodesWithoutProvenance
    } else if i == 2 {
        ProvenanceCoverageMetric::EdgesWithProvenance
    } else if i == 3 {
        ProvenanceCoverageMetric::EdgesWithoutProvenance
    } else if i == 4 {
        ProvenanceCoverageMetric::DiagnosticsWithProvenance
    } else if i == 5 {
        ProvenanceCoverageMetric::DiagnosticsWithoutProvenance
    } else if i == 6 {
        ProvenanceCoverageMetric::ReferencesWithProvenance
    } else {
        ProvenanceCoverageMetric::ReferencesWithoutProvenance
    }
}

fn provenance_metric(i: usize) -> (r: ProvenanceCoverageMetric)
    ensures
        r == provenance_metric_at(i as int),
{
    if i == 0 {
        ProvenanceCoverageMetric::NodesWithProvenance
    } else if i == 1 {
        ProvenanceCoverageMetric::NodesWithoutProvenance
    } else if i == 2 {
        ProvenanceCoverageMetric::EdgesWithProvenance
    } else if i == 3 {
        ProvenanceCoverageMetric::EdgesWithoutProvenance
    } else if i == 4 {
        ProvenanceCoverageMetric::DiagnosticsWithProvenance
    } else if i == 5 {
        ProvenanceCoverageMetric::DiagnosticsWithoutProvenance
    } else if i == 6 {
        ProvenanceCoverageMetric::ReferencesWithProvenance
    } else {
        ProvenanceCoverageMetric::ReferencesWithoutProvenance
    }
}

/// The keyed previous/current pairs of the eight provenance coverage counters.
pub open spec fn provenance_pairs(previous: Seq<usize>, current: Seq<usize>) -> Seq<
    (ProvenanceCoverageMetric, usize, usize),
> {
    Seq::new(8, |i: int| (provenance_metric_at(i), previous[i], current[i]))
}

/// Deterministic provenance coverage diff.
#[derive(Debug, Clone, PartialEq, Eq)]
pub struct ProvenanceCoverageDiff {
    changed_metrics: Vec<CountChange<ProvenanceCoverageMetric>>,
}

impl View for ProvenanceCoverageDiff {
    type V = Seq<CountChangeView<ProvenanceCoverageMetric>>;

    closed spec fn view(&self) -> Seq<CountChangeView<ProvenanceCoverageMetric>> {
        self.changed_metrics@.map_values(|c: CountChange<ProvenanceCoverageMetric>| c@)
    }
}

impl ProvenanceCoverageDiff {
    /// Compares provenance coverage summaries: the changed counters in metric
    /// order, each with its delta.
    pub fn between(previous: &ProvenanceCoverageSummary, current: &ProvenanceCoverageSummary) -> (r:
        Self)
        ensures
            r@ == count_changes(provenance_pairs(previous@, current@)),
    {
        let mut items: Vec<(ProvenanceCoverageMetric, usize, usize)> = Vec::new();
        let mut i: usize = 0;
        while i < 8
            invariant
                i <= 8,
                items@ == provenance_pairs(previous@, current@).take(i as int),
            decreases 8 - i,
        {
            items.push((provenance_metric(i), previous.counter(i), current.counter(i)));
            i = i + 1;
            assert(items@ =~= provenance_pairs(previous@, current@).take(i as int));
        }
        assert(provenance_pairs(previous@, current@).take(8) == provenance_pairs(
            previous@,
            current@,
        ));
        ProvenanceCoverageDiff { changed_metrics: collect_changes(&items) }
    }

    /// Returns changed provenance coverage metrics.
    pub fn changed_metrics(&self) -> (r: &[CountChange<ProvenanceCoverageMetric>])
        ensures
            r@.map_values(|c: CountChange<ProvenanceCoverageMetric>| c@) == self@,
    {
        self.changed_metrics.as_slice()
    }
}

/// Build diff view: graph diff, diagnostic diff, resolution metric changes,
/// report diff, provenance coverage changes, counters.
pub type BuildDiffView = (
    DiffView,
    DiagnosticDiffView,
    Seq<CountChangeView<ResolutionStatisticsMetric>>,
    GraphReportDiffView,
    Seq<CountChangeView<ProvenanceCoverageMetric>>,
    (usize, usize, usize, usize, usize, usize),
);

/// Whether the change counts of a build diff fit in `usize`.
pub open spec fn build_counts_fit(g: DiffView, d: DiagnosticDiffView, rep: GraphReportDiffView) -> bool {
    &&& g.0.len() + g.1.len() + g.2.len() <= usize::MAX
    &&& g.3.len() + g.4.len() + g.5.len() <= usize::MAX
    &&& d.0.len() + d.1.len() + d.2.len() <= usize::MAX
    &&& report_changed_count(rep) <= usize::MAX
}

/// The counters of a build diff: changed node and edge records, changed
/// diagnostics, and the changed resolution, report and provenance coverage
/// metric entries.
pub open spec fn build_summary(
    g: DiffView,
    d: DiagnosticDiffView,
    resolution: nat,
    rep: GraphReportDiffView,
    provenance: nat,
) -> (usize, usize, usize, usize, usize, usize) {
    (
        (g.0.len() + g.1.len() + g.2.len()) as usize,
        (g.3.len() + g.4.len() + g.5.len()) as usize,
        (d.0.len() + d.1.len() + d.2.len()) as usize,
        resolution as usize,
        report_changed_count(rep) as usize,
        provenance as usize,
    )
}

/// Deterministic diff between two complete semantic graph build snapshots,
/// in the `previous -> current` direction: the graph diff for nodes and
/// edges, then diagnostics, reference resolution counters, graph quality
/// report aggregates and provenance coverage aggregates.
#[derive(Debug, Clone, PartialEq, Eq)]
pub struct SemanticGraphBuildDiff {
    graph: SemanticGraphDiff,
    diagnostics: DiagnosticDiff,
    resolution: ResolutionStatisticsDiff,
    report: GraphReportDiff,
    provenance: ProvenanceCoverageDiff,
    summary: BuildDiffSummary,
}

impl View for SemanticGraphBuildDiff {
    type V = BuildDiffView;

    closed spec fn view(&self) -> BuildDiffView {
        (self.graph@, self.diagnostics@, self.resolution@, self.report@, self.provenance@, self.summary@)
    }
}

impl SemanticGraphBuildDiff {
    /// Compares two build snapshots, each a graph with its diagnostics,
    /// reference resolution counters, quality report and provenance coverage.
    pub fn between(
        previous_graph: &SemanticGraph,
        previous_diagnostics: &[SemanticDiagnostic],
        previous_resolution: SemanticReferenceStatistics,
        previous_report: &SemanticGraphReport,
        previous_coverage: &ProvenanceCoverageSummary,
        current_graph: &SemanticGraph,
        current_diagnostics: &[SemanticDiagnostic],
        current_resolution: SemanticReferenceStatistics,
        current_report: &SemanticGraphReport,
        current_coverage: &ProvenanceCoverageSummary,
    ) -> (r: Self)
        requires
            build_counts_fit(
                graph_diff(previous_graph@, current_graph@),
                diagnostic_diff(diagnostic_views(previous_diagnostics@), diagnostic_views(current_diagnostics@)),
                report_diff(previous_report@, current_report@),
            ),
        ensures
            r@.0 == graph_diff(previous_graph@, current_graph@),
            r@.1 == diagnostic_diff(diagnostic_views(previous_diagnostics@), diagnostic_views(current_diagnostics@)),
            r@.2 == count_changes(resolution_pairs(previous_resolution@, current_resolution@)),
            r@.3 == report_diff(previous_report@, current_report@),
            r@.4 == count_changes(provenance_pairs(previous_coverage@, current_coverage@)),
            r@.5 == build_summary(r@.0, r@.1, r@.2.len(), r@.3, r@.4.len()),
    {
        let graph = SemanticGraphDiff::between(previous_graph, current_graph);
        let diagnostics = DiagnosticDiff::between(previous_diagnostics, current_diagnostics);
        let resolution = ResolutionStatisticsDiff::between(previous_resolution, current_resolution);
        let report = GraphReportDiff::between(previous_report, current_report);
        let provenance = ProvenanceCoverageDiff::between(previous_coverage, current_coverage);
        let graph_summary = graph.summary();
        let diagnostic_summary = diagnostics.summary();
        let resolution_changes = resolution.changed_metrics().len();
        let report_changes = report.changed_metric_count();
        let provenance_changes = provenance.changed_metrics().len();
        let summary = BuildDiffSummary::new(
            graph_summary,
            diagnostic_summary,
            resolution_changes,
            report_changes,
            provenance_changes,
        );
        SemanticGraphBuildDiff { graph, diagnostics, resolution, report, provenance, summary }
    }

    /// Returns the graph diff for nodes and edges.
    pub fn graph(&self) -> (r: &SemanticGraphDiff)
        ensures
            r@ == self@.0,
    {
        &self.graph
    }

    /// Returns semantic diagnostic changes.
    pub fn diagnostics(&self) -> (r: &DiagnosticDiff)
        ensures
            r@ == self@.1,
    {
        &self.diagnostics
    }

    /// Returns reference resolution counter changes.
    pub fn resolution(&self) -> (r: &ResolutionStatisticsDiff)
        ensures
            r@ == self@.2,
    {
        &self.resolution
    }

    /// Returns graph quality report aggregate changes.
    pub fn report(&self) -> (r: &GraphReportDiff)
        ensures
            r@ == self@.3,
    {
        &self.report
    }

    /// Returns provenance coverage aggregate changes.
    pub fn provenance(&self) -> (r: &ProvenanceCoverageDiff)
        ensures
            r@ == self@.4,
    {
        &self.provenance
    }

    /// Returns compact build diff counters.
    pub fn summary(&self) -> (r: BuildDiffSummary)
        ensures
            r@ == self@.5,
    {
        self.summary
    }

    /// Whether no graph entity, diagnostic or metric changed.
    pub fn is_empty(&self) -> (r: bool)
        ensures
            r == (self@.5.0 + self@.5.1 + self@.5.2 + self@.5.3 + self@.5.4 + self@.5.5 == 0),
    {
        let s = self.summary;
        s.node_changes() == 0 && s.edge_changes() == 0 && s.diagnostic_changes() == 0
            && s.resolution_metric_changes() == 0 && s.report_metric_changes() == 0
            && s.provenance_coverage_changes() == 0
    }
}


/// Pairs with previous and current swapped.
pub open spec fn swapped<K>(items: Seq<(K, usize, usize)>) -> Seq<(K, usize, usize)> {
    items.map_values(|m: (K, usize, usize)| (m.0, m.2, m.1))
}

/// Opposite counter direction.
pub open spec fn opposite(d: CountChangeDirection) -> CountChangeDirection {
    match d {
        CountChangeDirection::Increased => CountChangeDirection::Decreased,
        CountChangeDirection::Decreased => CountChangeDirection::Increased,
    }
}

/// Comparing in the reverse direction reports the same changed keys, with
/// previous and current exchanged, the same magnitudes and the opposite
/// directions.
pub proof fn law_reverse_comparison_inverts_direction<K>(items: Seq<(K, usize, usize)>)
    ensures
        count_changes(swapped(items)).len() == count_changes(items).len(),
        forall|i: int|
            0 <= i < count_changes(items).len() ==> {
                let forward = #[trigger] count_changes(items)[i];
                let backward = count_changes(swapped(items))[i];
                &&& backward.0 == forward.0
                &&& backward.1 == forward.2
                &&& backward.2 == forward.1
                &&& backward.3.0 == opposite(forward.3.0)
                &&& backward.3.1 == forward.3.1
            },
    decreases items.len(),
{
    if items.len() > 0 {
        assert(swapped(items).drop_last() == swapped(items.drop_last()));
        law_reverse_comparison_inverts_direction(items.drop_last());
    }
}

/// Comparing a set of counters with itself reports no change, and every
/// reported change has a positive magnitude equal to the counter distance.
pub proof fn law_changes_are_exactly_the_differing_counters<K>(items: Seq<(K, usize, usize)>)
    ensures
        (forall|i: int| 0 <= i < items.len() ==> (#[trigger] items[i]).1 == items[i].2)
            ==> count_changes(items).len() == 0,
        forall|i: int|
            0 <= i < count_changes(items).len() ==> {
                let c = #[trigger] count_changes(items)[i];
                &&& c.1 != c.2
                &&& c.3.1 > 0
                &&& c.3.1 == if c.1 > c.2 {
                    c.1 - c.2
                } else {
                    c.2 - c.1
                }
                &&& (c.3.0 == CountChangeDirection::Increased <==> c.2 > c.1)
            },
    decreases items.len(),
{
    if items.len() > 0 {
        law_changes_are_exactly_the_differing_counters(items.drop_last());
        if forall|i: int| 0 <= i < items.len() ==> (#[trigger] items[i]).1 == items[i].2 {
            assert forall|i: int| 0 <= i < items.drop_last().len() implies (
            #[trigger] items.drop_last()[i]).1 == items.drop_last()[i].2 by {
                assert(items.drop_last()[i] == items[i]);
            }
            assert(items[items.len() - 1].1 == items[items.len() - 1].2);
        }
    }
}

proof fn lemma_same_counters_unchanged<K>(items: Seq<(K, usize, usize)>)
    requires
        forall|i: int| 0 <= i < items.len() ==> (#[trigger] items[i]).1 == items[i].2,
    ensures
        count_changes(items).len() == 0,
{
    law_changes_are_exactly_the_differing_counters(items);
}

/// A build snapshot compared with itself gives no change: no graph entity,
/// diagnostic, resolution counter, report entry or provenance coverage
/// counter changes, and every summary counter is zero.
pub proof fn law_build_diff_with_itself_is_empty(
    g: GraphView,
    d: Seq<DiagnosticView>,
    resolution: Seq<usize>,
    report: GraphReportView,
    coverage: Seq<usize>,
)
    requires
        graph_wf(g),
    ensures
        graph_diff(g, g).0.len() + graph_diff(g, g).1.len() + graph_diff(g, g).2.len() == 0,
        graph_diff(g, g).3.len() + graph_diff(g, g).4.len() + graph_diff(g, g).5.len() == 0,
        diagnostic_diff(d, d).0.len() + diagnostic_diff(d, d).1.len() + diagnostic_diff(d, d).2.len() == 0,
        count_changes(resolution_pairs(resolution, resolution)).len() == 0,
        report_changed_count(report_diff(report, report)) == 0,
        count_changes(provenance_pairs(coverage, coverage)).len() == 0,
        build_summary(
            graph_diff(g, g),
            diagnostic_diff(d, d),
            count_changes(resolution_pairs(resolution, resolution)).len(),
            report_diff(report, report),
            count_changes(provenance_pairs(coverage, coverage)).len(),
        ) == (0usize, 0usize, 0usize, 0usize, 0usize, 0usize),
{
    lemma_diff_with_itself_is_empty(g);
    law_diagnostic_diff_with_itself_is_empty(d);
    lemma_same_counters_unchanged(resolution_pairs(resolution, resolution));
    lemma_same_counters_unchanged(provenance_pairs(coverage, coverage));
    lemma_same_counters_unchanged(report_pairs(report.0, report.0));
    lemma_same_counters_unchanged(distribution_pairs(report.1, report.1));
    lemma_same_counters_unchanged(distribution_pairs(report.2, report.2));
    lemma_same_counters_unchanged(distribution_pairs(report.3, report.3));
    lemma_same_counters_unchanged(distribution_pairs(report.4, report.4));
    lemma_same_counters_unchanged(distribution_pairs(report.5, report.5));
}

/// The change a counter entry reports when its values differ.
pub open spec fn change_of<K>(m: (K, usize, usize)) -> CountChangeView<K> {
    (
        m.0,
        m.1 as int,
        m.2 as int,
        match delta_between(m.1 as int, m.2 as int) {
            Some(d) => d,
            None => (CountChangeDirection::Increased, 0),
        },
    )
}

/// The reported changes are exactly the counters whose values differ: each
/// differing counter is reported with its delta, and each report comes from
/// a differing counter.
pub proof fn law_changes_list_every_differing_counter<K>(items: Seq<(K, usize, usize)>)
    ensures
        forall|i: int|
            0 <= i < items.len() && (#[trigger] items[i]).1 != items[i].2 ==> count_changes(items).contains(
                change_of(items[i]),
            ),
        forall|c: CountChangeView<K>|
            #[trigger] count_changes(items).contains(c) ==> exists|i: int|
                0 <= i < items.len() && (#[trigger] items[i]).1 != items[i].2 && c == change_of(items[i]),
    decreases items.len(),
{
    if items.len() > 0 {
        let prev = items.drop_last();
        let m = items.last();
        law_changes_list_every_differing_counter(prev);
        let rest = count_changes(prev);
        let all = count_changes(items);
        assert forall|i: int|
            0 <= i < items.len() && (#[trigger] items[i]).1 != items[i].2 implies all.contains(change_of(items[i])) by {
            if i < prev.len() {
                assert(prev[i] == items[i]);
                assert(rest.contains(change_of(prev[i])));
                let j = choose|j: int| 0 <= j < rest.len() && rest[j] == change_of(prev[i]);
                assert(all[j] == rest[j]);
            } else {
                assert(all.last() == change_of(m));
            }
        }
        assert forall|c: CountChangeView<K>| #[trigger] all.contains(c) implies exists|i: int|
            0 <= i < items.len() && (#[trigger] items[i]).1 != items[i].2 && c == change_of(items[i]) by {
            let j = choose|j: int| 0 <= j < all.len() && all[j] == c;
            if j < rest.len() {
                assert(all[j] == rest[j]);
                assert(rest.contains(c));
                let i = choose|i: int| 0 <= i < prev.len() && (#[trigger] prev[i]).1 != prev[i].2 && c == change_of(prev[i]);
                assert(items[i] == prev[i]);
            } else {
                assert(items[items.len() - 1] == m);
            }
        }
    }
}

} // verus!
