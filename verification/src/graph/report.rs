//! Counter summaries consumed by build diffs.

use vstd::prelude::*;

use crate::graph::diagnostic::{
    diagnostic_code_at, diagnostic_code_at_position, diagnostic_kind_at, diagnostic_kind_at_position,
    diagnostic_severity_at, diagnostic_severity_at_position, SemanticDiagnosticCode, SemanticDiagnosticKind,
    SemanticDiagnosticSeverity,
};
use crate::graph::kind::{edge_kind_at, edge_kind_at_position, node_kind_at, node_kind_at_position, EdgeKind, NodeKind};

verus! {

/// Reference resolution counters of one build.
#[derive(Debug, Clone, Copy, PartialEq, Eq, Default)]
pub struct SemanticReferenceStatistics {
    total: usize,
    malformed_format: usize,
    unsupported_prefix: usize,
    resolved: usize,
    unresolved: usize,
    ambiguous: usize,
    incompatible_target_kind: usize,
    invalid_owner_reference: usize,
    duplicate_edge_request: usize,
    with_provenance: usize,
    without_provenance: usize,
}

impl View for SemanticReferenceStatistics {
    type V = Seq<usize>;

    /// The eleven counters in declaration order.
    closed spec fn view(&self) -> Seq<usize> {
        seq![
            self.total,
            self.malformed_format,
            self.unsupported_prefix,
            self.resolved,
            self.unresolved,
            self.ambiguous,
            self.incompatible_target_kind,
            self.invalid_owner_reference,
            self.duplicate_edge_request,
            self.with_provenance,
            self.without_provenance,
        ]
    }
}

impl SemanticReferenceStatistics {
    /// Creates reference statistics from their eleven counters.
    pub fn new(
        total: usize,
        malformed_format: usize,
        unsupported_prefix: usize,
        resolved: usize,
        unresolved: usize,
        ambiguous: usize,
        incompatible_target_kind: usize,
        invalid_owner_reference: usize,
        duplicate_edge_request: usize,
        with_provenance: usize,
        without_provenance: usize,
    ) -> (r: Self)
        ensures
            r@ == seq![
                total,
                malformed_format,
                unsupported_prefix,
                resolved,
                unresolved,
                ambiguous,
                incompatible_target_kind,
                invalid_owner_reference,
                duplicate_edge_request,
                with_provenance,
                without_provenance,
            ],
    {
        SemanticReferenceStatistics {
            total,
            malformed_format,
            unsupported_prefix,
            resolved,
            unresolved,
            ambiguous,
            incompatible_target_kind,
            invalid_owner_reference,
            duplicate_edge_request,
            with_provenance,
            without_provenance,
        }
    }

    /// Returns the counter at `index` in declaration order.
    pub fn counter(&self, index: usize) -> (r: usize)
        requires
            index < 11,
        ensures
            r == self@[index as int],
    {
        if index == 0 {
            self.total
        } else if index == 1 {
            self.malformed_format
        } else if index == 2 {
            self.unsupported_prefix
        } else if index == 3 {
            self.resolved
        } else if index == 4 {
            self.unresolved
        } else if index == 5 {
            self.ambiguous
        } else if index == 6 {
            self.incompatible_target_kind
        } else if index == 7 {
            self.invalid_owner_reference
        } else if index == 8 {
            self.duplicate_edge_request
        } else if index == 9 {
            self.with_provenance
        } else {
            self.without_provenance
        }
    }
}

/// Provenance coverage counters of one build.
#[derive(Debug, Clone, Copy, PartialEq, Eq, Default)]
pub struct ProvenanceCoverageSummary {
    nodes_with_provenance: usize,
    nodes_without_provenance: usize,
    edges_with_provenance: usize,
    edges_without_provenance: usize,
    diagnostics_with_provenance: usize,
    diagnostics_without_provenance: usize,
    references_with_provenance: usize,
    references_without_provenance: usize,
}

impl View for ProvenanceCoverageSummary {
    type V = Seq<usize>;

    /// The eight counters in declaration order.
    closed spec fn view(&self) -> Seq<usize> {
        seq![
            self.nodes_with_provenance,
            self.nodes_without_provenance,
            self.edges_with_provenance,
            self.edges_without_provenance,
            self.diagnostics_with_provenance,
            self.diagnostics_without_provenance,
            self.references_with_provenance,
            self.references_without_provenance,
        ]
    }
}

impl ProvenanceCoverageSummary {
    /// Creates a provenance coverage summary from its eight counters.
    pub fn new(
        nodes_with_provenance: usize,
        nodes_without_provenance: usize,
        edges_with_provenance: usize,
        edges_without_provenance: usize,
        diagnostics_with_provenance: usize,
        diagnostics_without_provenance: usize,
        references_with_provenance: usize,
        references_without_provenance: usize,
    ) -> (r: Self)
        ensures
            r@ == seq![
                nodes_with_provenance,
                nodes_without_provenance,
                edges_with_provenance,
                edges_without_provenance,
                diagnostics_with_provenance,
                diagnostics_without_provenance,
                references_with_provenance,
                references_without_provenance,
            ],
    {
        ProvenanceCoverageSummary {
            nodes_with_provenance,
            nodes_without_provenance,
            edges_with_provenance,
            edges_without_provenance,
            diagnostics_with_provenance,
            diagnostics_without_provenance,
            references_with_provenance,
            references_without_provenance,
        }
    }

    /// Returns the counter at `index` in declaration order.
    pub fn counter(&self, index: usize) -> (r: usize)
        requires
            index < 8,
        ensures
            r == self@[index as int],
    {
        if index == 0 {
            self.nodes_with_provenance
        } else if index == 1 {
            self.nodes_without_provenance
        } else if index == 2 {
            self.edges_with_provenance
        } else if index == 3 {
            self.edges_without_provenance
        } else if index == 4 {
            self.diagnostics_with_provenance
        } else if index == 5 {
            self.diagnostics_without_provenance
        } else if index == 6 {
            self.references_with_provenance
        } else {
            self.references_without_provenance
        }
    }
}

/// A key of a report distribution: an enumeration whose keys can be listed
/// in order and compared.
pub trait DistributionKey: Copy + Sized {
    /// Number of keys.
    spec fn spec_key_count() -> nat;

    /// The key at position `i` of key order.
    spec fn spec_key_at(i: int) -> Self;

    /// Returns the number of keys.
    fn key_count() -> (r: usize)
        ensures
            r == Self::spec_key_count(),
    ;

    /// Returns the key at position `i` of key order.
    fn key_at(i: usize) -> (r: Self)
        requires
            i < Self::spec_key_count(),
        ensures
            r == Self::spec_key_at(i as int),
    ;

    /// Returns whether two keys are equal.
    fn same_key(&self, other: &Self) -> (r: bool)
        ensures
            r == (*self == *other),
    ;
}

impl DistributionKey for NodeKind {
    open spec fn spec_key_count() -> nat {
        43
    }

    open spec fn spec_key_at(i: int) -> NodeKind {
        node_kind_at(i)
    }

    fn key_count() -> (r: usize) {
        43
    }

    fn key_at(i: usize) -> (r: NodeKind) {
        node_kind_at_position(i)
    }

    fn same_key(&self, other: &NodeKind) -> (r: bool) {
        *self == *other
    }
}

impl DistributionKey for EdgeKind {
    open spec fn spec_key_count() -> nat {
        11
    }

    open spec fn spec_key_at(i: int) -> EdgeKind {
        edge_kind_at(i)
    }

    fn key_count() -> (r: usize) {
        11
    }

    fn key_at(i: usize) -> (r: EdgeKind) {
        edge_kind_at_position(i)
    }

    fn same_key(&self, other: &EdgeKind) -> (r: bool) {
        *self == *other
    }
}

impl DistributionKey for SemanticDiagnosticCode {
    open spec fn spec_key_count() -> nat {
        7
    }

    open spec fn spec_key_at(i: int) -> SemanticDiagnosticCode {
        diagnostic_code_at(i)
    }

    fn key_count() -> (r: usize) {
        7
    }

    fn key_at(i: usize) -> (r: SemanticDiagnosticCode) {
        diagnostic_code_at_position(i)
    }

    fn same_key(&self, other: &SemanticDiagnosticCode) -> (r: bool) {
        *self == *other
    }
}

impl DistributionKey for SemanticDiagnosticSeverity {
    open spec fn spec_key_count() -> nat {
        2
    }

    open spec fn spec_key_at(i: int) -> SemanticDiagnosticSeverity {
        diagnostic_severity_at(i)
    }

    fn key_count() -> (r: usize) {
        2
    }

    fn key_at(i: usize) -> (r: SemanticDiagnosticSeverity) {
        diagnostic_severity_at_position(i)
    }

    fn same_key(&self, other: &SemanticDiagnosticSeverity) -> (r: bool) {
        *self == *other
    }
}

impl DistributionKey for SemanticDiagnosticKind {
    open spec fn spec_key_count() -> nat {
        7
    }

    open spec fn spec_key_at(i: int) -> SemanticDiagnosticKind {
        diagnostic_kind_at(i)
    }

    fn key_count() -> (r: usize) {
        7
    }

    fn key_at(i: usize) -> (r: SemanticDiagnosticKind) {
        diagnostic_kind_at_position(i)
    }

    fn same_key(&self, other: &SemanticDiagnosticKind) -> (r: bool) {
        *self == *other
    }
}

/// The count a distribution gives `k`: that of its first entry for `k`, or
/// zero.
pub open spec fn dist_count<K>(d: Seq<(K, usize)>, k: K) -> usize
    decreases d.len(),
{
    if d.len() == 0 {
        0
    } else if d[0].0 == k {
        d[0].1
    } else {
        dist_count(d.drop_first(), k)
    }
}

/// Returns the count a distribution gives `k`.
pub fn distribution_count<K: DistributionKey>(d: &[(K, usize)], k: K) -> (r: usize)
    ensures
        r == dist_count(d@, k),
{
    let mut i: usize = 0;
    assert(d@.skip(0) =~= d@);
    while i < d.len()
        invariant
            i <= d@.len(),
            dist_count(d@, k) == dist_count(d@.skip(i as int), k),
        decreases d@.len() - i,
    {
        assert(d@.skip(i as int).drop_first() =~= d@.skip(i + 1));
        if d[i].0.same_key(&k) {
            return d[i].1;
        }
        i = i + 1;
    }
    0
}

/// Graph quality report counters: the scalar counters in metric order, and
/// the distributions of nodes and edges by kind and of diagnostics by code,
/// severity and kind.
#[derive(Debug, Clone, PartialEq, Eq)]
pub struct SemanticGraphReport {
    scalars: [usize; 12],
    nodes_by_kind: Vec<(NodeKind, usize)>,
    edges_by_kind: Vec<(EdgeKind, usize)>,
    diagnostics_by_code: Vec<(SemanticDiagnosticCode, usize)>,
    diagnostics_by_severity: Vec<(SemanticDiagnosticSeverity, usize)>,
    diagnostics_by_kind: Vec<(SemanticDiagnosticKind, usize)>,
}

/// Report view: scalar counters and the five distributions.
pub type GraphReportView = (
    Seq<usize>,
    Seq<(NodeKind, usize)>,
    Seq<(EdgeKind, usize)>,
    Seq<(SemanticDiagnosticCode, usize)>,
    Seq<(SemanticDiagnosticSeverity, usize)>,
    Seq<(SemanticDiagnosticKind, usize)>,
);

impl View for SemanticGraphReport {
    type V = GraphReportView;

    closed spec fn view(&self) -> GraphReportView {
        (
            self.scalars@,
            self.nodes_by_kind@,
            self.edges_by_kind@,
            self.diagnostics_by_code@,
            self.diagnostics_by_severity@,
            self.diagnostics_by_kind@,
        )
    }
}

impl SemanticGraphReport {
    /// Creates a report from its twelve scalar counters (total nodes, total
    /// edges, total and recoverable diagnostics, nodes with and without
    /// provenance, edges with and without provenance, edges missing sources
    /// and targets, diagnostics with and without provenance) and its
    /// distributions, where a key listed twice counts by its first entry.
    pub fn new(
        scalars: [usize; 12],
        nodes_by_kind: Vec<(NodeKind, usize)>,
        edges_by_kind: Vec<(EdgeKind, usize)>,
        diagnostics_by_code: Vec<(SemanticDiagnosticCode, usize)>,
        diagnostics_by_severity: Vec<(SemanticDiagnosticSeverity, usize)>,
        diagnostics_by_kind: Vec<(SemanticDiagnosticKind, usize)>,
    ) -> (r: Self)
        ensures
            r@ == (
                scalars@,
                nodes_by_kind@,
                edges_by_kind@,
                diagnostics_by_code@,
                diagnostics_by_severity@,
                diagnostics_by_kind@,
            ),
    {
        SemanticGraphReport {
            scalars,
            nodes_by_kind,
            edges_by_kind,
            diagnostics_by_code,
            diagnostics_by_severity,
            diagnostics_by_kind,
        }
    }

    /// Returns the scalar counter at `index` in metric order.
    pub fn scalar(&self, index: usize) -> (r: usize)
        requires
            index < 12,
        ensures
            r == self@.0[index as int],
    {
        self.scalars[index]
    }

    /// Returns the node distribution by kind.
    pub fn nodes_by_kind(&self) -> (r: &[(NodeKind, usize)])
        ensures
            r@ == self@.1,
    {
        self.nodes_by_kind.as_slice()
    }

    /// Returns the edge distribution by kind.
    pub fn edges_by_kind(&self) -> (r: &[(EdgeKind, usize)])
        ensures
            r@ == self@.2,
    {
        self.edges_by_kind.as_slice()
    }

    /// Returns the diagnostic distribution by code.
    pub fn diagnostics_by_code(&self) -> (r: &[(SemanticDiagnosticCode, usize)])
        ensures
            r@ == self@.3,
    {
        self.diagnostics_by_code.as_slice()
    }

    /// Returns the diagnostic distribution by severity.
    pub fn diagnostics_by_severity(&self) -> (r: &[(SemanticDiagnosticSeverity, usize)])
        ensures
            r@ == self@.4,
    {
        self.diagnostics_by_severity.as_slice()
    }

    /// Returns the diagnostic distribution by kind.
    pub fn diagnostics_by_kind(&self) -> (r: &[(SemanticDiagnosticKind, usize)])
        ensures
            r@ == self@.5,
    {
        self.diagnostics_by_kind.as_slice()
    }
}

} // verus!
