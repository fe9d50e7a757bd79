//! Vocabulary and counters of deterministic graph-level impact analysis.

use vstd::prelude::*;

use crate::graph::identity::{EdgeId, NodeId};
use crate::graph::kind::{EdgeKind, NodeKind};
use crate::graph::diff::NodeModifiedAspect;
use crate::graph::query::SemanticGraphEdgeFilter;
use crate::text::push_str;

verus! {

/// Graph snapshot used by an impact reason.
#[derive(Debug, Clone, Copy, PartialEq, Eq, PartialOrd, Ord, Hash, Structural)]
pub enum ImpactSnapshot {
    /// The reason comes from the previous graph snapshot.
    Previous,
    /// The reason comes from the current graph snapshot.
    Current,
}

/// Snapshot availability of an affected node.
#[derive(Debug, Clone, Copy, PartialEq, Eq, PartialOrd, Ord, Hash, Structural)]
pub enum ImpactNodeAvailability {
    /// The node exists only in the previous graph.
    PreviousOnly,
    /// The node exists only in the current graph.
    CurrentOnly,
    /// The node exists in both graph snapshots.
    Both,
}

/// High-level affected node status.
#[derive(Debug, Clone, Copy, PartialEq, Eq, PartialOrd, Ord, Hash, Structural)]
pub enum ImpactNodeStatus {
    /// The node is directly changed by the graph diff.
    DirectlyChanged,
    /// The node was reached transitively through propagation policy.
    TransitivelyAffected,
    /// The node was removed from the current graph.
    Removed,
}

/// Typed impact seed kind.
#[derive(Debug, Clone, Copy, PartialEq, Eq, PartialOrd, Ord, Hash, Structural)]
pub enum ImpactSeedKind {
    /// Added node seed.
    NodeAdded,
    /// Removed node seed.
    NodeRemoved,
    /// Modified node seed.
    NodeModified,
    /// Added edge seed.
    EdgeAdded,
    /// Removed edge seed.
    EdgeRemoved,
    /// Modified edge seed.
    EdgeModified,
}

/// Typed reason for including a node in the affected set.
#[derive(Debug, Clone, Copy, PartialEq, Eq, PartialOrd, Ord, Hash, Structural)]
pub enum ImpactReasonKind {
    /// Node was added.
    NodeAdded,
    /// Node was removed.
    NodeRemoved,
    /// Node was modified.
    NodeModified,
    /// Edge touching the node was added.
    EdgeAdded,
    /// Edge touching the node was removed.
    EdgeRemoved,
    /// Edge touching the node was modified.
    EdgeModified,
    /// Node was reached through dependency-to-usage propagation.
    DependencyPropagation,
    /// Node was reached through ownership propagation.
    OwnershipPropagation,
}

/// Direction of impact propagation through a relation.
#[derive(Debug, Clone, Copy, PartialEq, Eq, PartialOrd, Ord, Hash, Structural)]
pub enum ImpactPropagationDirection {
    /// Dependency target changed, usage source is affected.
    DependencyToUsage,
    /// Child changed, owner is affected.
    ChildToOwner,
    /// Owner changed, child is affected.
    OwnerToChild,
}

/// Completeness status of an impact analysis result.
#[derive(Debug, Clone, Copy, PartialEq, Eq, PartialOrd, Ord, Hash, Structural)]
pub enum ImpactCompleteness {
    /// Result is complete within the requested maximum depth.
    CompleteWithinRequestedDepth,
}

/// Ownership propagation mode.
#[derive(Debug, Clone, Copy, PartialEq, Eq, PartialOrd, Ord, Hash, Structural)]
pub enum OwnershipImpactMode {
    /// Do not propagate impact through containment.
    Disabled,
    /// Propagate from child to owner.
    ChildToOwner,
    /// Propagate from owner to child.
    OwnerToChild,
    /// Propagate both from child to owner and owner to child.
    Bidirectional,
}

/// Provenance-only change handling.
#[derive(Debug, Clone, Copy, PartialEq, Eq, PartialOrd, Ord, Hash, Structural)]
pub enum ProvenanceImpactMode {
    /// Ignore provenance-only modified node and edge changes.
    Exclude,
    /// Include provenance-only changes only as direct affected seeds.
    DirectOnly,
    /// Include and propagate provenance-only changes.
    Propagate,
}

/// Typed impact analysis options.
#[derive(Debug, Clone, PartialEq, Eq)]
pub struct SemanticImpactOptions {
    max_depth: usize,
    edge_filter: SemanticGraphEdgeFilter,
    ownership_mode: OwnershipImpactMode,
    provenance_mode: ProvenanceImpactMode,
}

/// Options view: maximum depth, edge filter, ownership mode, provenance mode.
pub type ImpactOptionsView = (usize, Option<Seq<EdgeKind>>, OwnershipImpactMode, ProvenanceImpactMode);

impl View for SemanticImpactOptions {
    type V = ImpactOptionsView;

    closed spec fn view(&self) -> ImpactOptionsView {
        (self.max_depth, self.edge_filter@, self.ownership_mode, self.provenance_mode)
    }
}

impl SemanticImpactOptions {
    /// Creates options with a strict maximum impact depth: all edge kinds,
    /// ownership propagation disabled, provenance-only changes direct-only.
    pub fn new(max_depth: usize) -> (r: Self)
        ensures
            r@ == (
                max_depth,
                None::<Seq<EdgeKind>>,
                OwnershipImpactMode::Disabled,
                ProvenanceImpactMode::DirectOnly,
            ),
    {
        SemanticImpactOptions {
            max_depth,
            edge_filter: SemanticGraphEdgeFilter::All,
            ownership_mode: OwnershipImpactMode::Disabled,
            provenance_mode: ProvenanceImpactMode::DirectOnly,
        }
    }

    /// Returns the strict maximum traversal depth.
    pub fn max_depth(&self) -> (r: usize)
        ensures
            r == self@.0,
    {
        self.max_depth
    }

    /// Returns the dependency edge kind filter.
    pub fn edge_filter(&self) -> (r: &SemanticGraphEdgeFilter)
        ensures
            r@ == self@.1,
    {
        &self.edge_filter
    }

    /// Returns the ownership propagation mode.
    pub fn ownership_mode(&self) -> (r: OwnershipImpactMode)
        ensures
            r == self@.2,
    {
        self.ownership_mode
    }

    /// Returns the provenance-only change handling mode.
    pub fn provenance_mode(&self) -> (r: ProvenanceImpactMode)
        ensures
            r == self@.3,
    {
        self.provenance_mode
    }

    /// Sets the dependency edge kind filter.
    pub fn with_edge_filter(self, edge_filter: SemanticGraphEdgeFilter) -> (r: Self)
        ensures
            r@ == (self@.0, edge_filter@, self@.2, self@.3),
    {
        let mut options = self;
        options.edge_filter = edge_filter;
        options
    }

    /// Sets the ownership propagation mode.
    pub fn with_ownership_mode(self, ownership_mode: OwnershipImpactMode) -> (r: Self)
        ensures
            r@ == (self@.0, self@.1, ownership_mode, self@.3),
    {
        let mut options = self;
        options.ownership_mode = ownership_mode;
        options
    }

    /// Sets the provenance-only change handling mode.
    pub fn with_provenance_mode(self, provenance_mode: ProvenanceImpactMode) -> (r: Self)
        ensures
            r@ == (self@.0, self@.1, self@.2, provenance_mode),
    {
        let mut options = self;
        options.provenance_mode = provenance_mode;
        options
    }
}

impl Default for SemanticImpactOptions {
    fn default() -> (r: Self)
        ensures
            r@ == (
                1usize,
                None::<Seq<EdgeKind>>,
                OwnershipImpactMode::Disabled,
                ProvenanceImpactMode::DirectOnly,
            ),
    {
        Self::new(1)
    }
}

/// Text of an optional identifier.
pub open spec fn node_text(id: Option<NodeId>) -> Option<Seq<char>> {
    match id {
        Some(i) => Some(i@),
        None => None,
    }
}

/// Text of an optional edge identifier.
pub open spec fn edge_text(id: Option<EdgeId>) -> Option<Seq<char>> {
    match id {
        Some(i) => Some(i@),
        None => None,
    }
}

/// Stable identity of a seed change: its kind and the node or edge it names.
#[derive(Debug, Clone, PartialEq, Eq, PartialOrd, Ord, Hash)]
pub struct ImpactSeed {
    kind: ImpactSeedKind,
    node_id: Option<NodeId>,
    edge_id: Option<EdgeId>,
}

/// Seed view: kind, node identifier text, edge identifier text.
pub type ImpactSeedView = (ImpactSeedKind, Option<Seq<char>>, Option<Seq<char>>);

impl View for ImpactSeed {
    type V = ImpactSeedView;

    closed spec fn view(&self) -> ImpactSeedView {
        (self.kind, node_text(self.node_id), edge_text(self.edge_id))
    }
}

impl ImpactSeed {
    /// Creates a node seed.
    pub fn node(kind: ImpactSeedKind, node_id: NodeId) -> (r: Self)
        ensures
            r@ == (kind, Some(node_id@), None::<Seq<char>>),
    {
        ImpactSeed { kind, node_id: Some(node_id), edge_id: None }
    }

    /// Creates an edge seed.
    pub fn edge(kind: ImpactSeedKind, edge_id: EdgeId) -> (r: Self)
        ensures
            r@ == (kind, None::<Seq<char>>, Some(edge_id@)),
    {
        ImpactSeed { kind, node_id: None, edge_id: Some(edge_id) }
    }

    /// Returns the seed kind.
    pub fn kind(&self) -> (r: ImpactSeedKind)
        ensures
            r == self@.0,
    {
        self.kind
    }

    /// Returns the seed node identifier, when this is a node seed.
    pub fn node_id(&self) -> (r: Option<&NodeId>)
        ensures
            match r {
                Some(n) => self@.1 == Some(n@),
                None => self@.1 is None,
            },
    {
        match &self.node_id {
            Some(n) => Some(n),
            None => None,
        }
    }

    /// Returns the seed edge identifier, when this is an edge seed.
    pub fn edge_id(&self) -> (r: Option<&EdgeId>)
        ensures
            match r {
                Some(e) => self@.2 == Some(e@),
                None => self@.2 is None,
            },
    {
        match &self.edge_id {
            Some(e) => Some(e),
            None => None,
        }
    }

    /// Returns an identical copy of the seed.
    pub fn duplicate(&self) -> (r: Self)
        ensures
            r@ == self@,
    {
        ImpactSeed {
            kind: self.kind,
            node_id: match &self.node_id {
                Some(n) => Some(n.duplicate()),
                None => None,
            },
            edge_id: match &self.edge_id {
                Some(e) => Some(e.duplicate()),
                None => None,
            },
        }
    }
}

/// Typed reason for an affected node.
#[derive(Debug, Clone, PartialEq, Eq, PartialOrd, Ord, Hash)]
pub struct ImpactReason {
    kind: ImpactReasonKind,
    seed: ImpactSeed,
    source_node: Option<NodeId>,
    edge_id: Option<EdgeId>,
    edge_kind: Option<EdgeKind>,
    depth: usize,
    snapshot: ImpactSnapshot,
    propagation: Option<ImpactPropagationDirection>,
}

/// Reason view: kind, seed, source node, edge identifier, edge kind, depth,
/// snapshot and propagation direction.
pub type ImpactReasonView = (
    ImpactReasonKind,
    ImpactSeedView,
    Option<Seq<char>>,
    Option<Seq<char>>,
    Option<EdgeKind>,
    usize,
    ImpactSnapshot,
    Option<ImpactPropagationDirection>,
);

impl View for ImpactReason {
    type V = ImpactReasonView;

    closed spec fn view(&self) -> ImpactReasonView {
        (
            self.kind,
            self.seed@,
            node_text(self.source_node),
            edge_text(self.edge_id),
            self.edge_kind,
            self.depth,
            self.snapshot,
            self.propagation,
        )
    }
}

impl ImpactReason {
    /// Creates a reason with no source node, edge or propagation.
    pub fn new(kind: ImpactReasonKind, seed: ImpactSeed, depth: usize, snapshot: ImpactSnapshot) -> (r:
        Self)
        ensures
            r@ == (
                kind,
                seed@,
                None::<Seq<char>>,
                None::<Seq<char>>,
                None::<EdgeKind>,
                depth,
                snapshot,
                None::<ImpactPropagationDirection>,
            ),
    {
        ImpactReason {
            kind,
            seed,
            source_node: None,
            edge_id: None,
            edge_kind: None,
            depth,
            snapshot,
            propagation: None,
        }
    }

    /// Sets the node from which the reason propagated.
    pub fn with_source_node(self, source_node: NodeId) -> (r: Self)
        ensures
            r@ == (self@.0, self@.1, Some(source_node@), self@.3, self@.4, self@.5, self@.6, self@.7),
    {
        let mut reason = self;
        reason.source_node = Some(source_node);
        reason
    }

    /// Sets the reason edge and its kind.
    pub fn with_edge(self, edge_id: EdgeId, edge_kind: EdgeKind) -> (r: Self)
        ensures
            r@ == (
                self@.0,
                self@.1,
                self@.2,
                Some(edge_id@),
                Some(edge_kind),
                self@.5,
                self@.6,
                self@.7,
            ),
    {
        let mut reason = self;
        reason.edge_id = Some(edge_id);
        reason.edge_kind = Some(edge_kind);
        reason
    }

    /// Sets the propagation direction.
    pub fn with_propagation(self, propagation: ImpactPropagationDirection) -> (r: Self)
        ensures
            r@ == (self@.0, self@.1, self@.2, self@.3, self@.4, self@.5, self@.6, Some(propagation)),
    {
        let mut reason = self;
        reason.propagation = Some(propagation);
        reason
    }

    /// Returns an identical copy of the reason.
    pub fn duplicate(&self) -> (r: Self)
        ensures
            r@ == self@,
    {
        ImpactReason {
            kind: self.kind,
            seed: self.seed.duplicate(),
            source_node: match &self.source_node {
                Some(n) => Some(n.duplicate()),
                None => None,
            },
            edge_id: match &self.edge_id {
                Some(e) => Some(e.duplicate()),
                None => None,
            },
            edge_kind: self.edge_kind,
            depth: self.depth,
            snapshot: self.snapshot,
            propagation: self.propagation,
        }
    }

    /// Returns the reason kind.
    pub fn kind(&self) -> (r: ImpactReasonKind)
        ensures
            r == self@.0,
    {
        self.kind
    }

    /// Returns the originating seed.
    pub fn seed(&self) -> (r: &ImpactSeed)
        ensures
            r@ == self@.1,
    {
        &self.seed
    }

    /// Returns the node from which this reason propagated.
    pub fn source_node(&self) -> (r: Option<&NodeId>)
        ensures
            match r {
                Some(n) => self@.2 == Some(n@),
                None => self@.2 is None,
            },
    {
        match &self.source_node {
            Some(n) => Some(n),
            None => None,
        }
    }

    /// Returns the reason edge identifier.
    pub fn edge_id(&self) -> (r: Option<&EdgeId>)
        ensures
            match r {
                Some(e) => self@.3 == Some(e@),
                None => self@.3 is None,
            },
    {
        match &self.edge_id {
            Some(e) => Some(e),
            None => None,
        }
    }

    /// Returns the reason edge kind.
    pub fn edge_kind(&self) -> (r: Option<EdgeKind>)
        ensures
            r == self@.4,
    {
        self.edge_kind
    }

    /// Returns depth from the originating seed.
    pub fn depth(&self) -> (r: usize)
        ensures
            r == self@.5,
    {
        self.depth
    }

    /// Returns the snapshot that supplied the reason.
    pub fn snapshot(&self) -> (r: ImpactSnapshot)
        ensures
            r == self@.6,
    {
        self.snapshot
    }

    /// Returns the propagation direction, when this is a transitive reason.
    pub fn propagation(&self) -> (r: Option<ImpactPropagationDirection>)
        ensures
            r == self@.7,
    {
        self.propagation
    }
}

/// Combined status of a node reached both with `current` and `incoming`:
/// removal dominates direct change, which dominates transitive reach.
pub open spec fn merged_status(current: ImpactNodeStatus, incoming: ImpactNodeStatus) -> ImpactNodeStatus {
    if current == ImpactNodeStatus::Removed || incoming == ImpactNodeStatus::Removed {
        ImpactNodeStatus::Removed
    } else if current == ImpactNodeStatus::DirectlyChanged || incoming
        == ImpactNodeStatus::DirectlyChanged {
        ImpactNodeStatus::DirectlyChanged
    } else {
        ImpactNodeStatus::TransitivelyAffected
    }
}

/// Merges two statuses of the same node.
pub fn merge_status(current: ImpactNodeStatus, incoming: ImpactNodeStatus) -> (r: ImpactNodeStatus)
    ensures
        r == merged_status(current, incoming),
{
    match (current, incoming) {
        (ImpactNodeStatus::Removed, _) | (_, ImpactNodeStatus::Removed) => ImpactNodeStatus::Removed,
        (ImpactNodeStatus::DirectlyChanged, _) | (_, ImpactNodeStatus::DirectlyChanged) => {
            ImpactNodeStatus::DirectlyChanged
        },
        _ => ImpactNodeStatus::TransitivelyAffected,
    }
}

/// Merging statuses is commutative, associative and idempotent, so the status
/// of an affected node does not depend on the order in which reasons arrive.
pub proof fn law_status_merge_is_order_independent(
    a: ImpactNodeStatus,
    b: ImpactNodeStatus,
    c: ImpactNodeStatus,
)
    ensures
        merged_status(a, b) == merged_status(b, a),
        merged_status(merged_status(a, b), c) == merged_status(a, merged_status(b, c)),
        merged_status(a, a) == a,
{
}

/// Whether a node change modified only provenance.
pub fn is_provenance_only_node_change(modified_aspects: &[NodeModifiedAspect]) -> (r: bool)
    ensures
        r == (modified_aspects@ == seq![NodeModifiedAspect::Provenance]),
{
    if modified_aspects.len() == 1 && modified_aspects[0] == NodeModifiedAspect::Provenance {
        assert(modified_aspects@ =~= seq![NodeModifiedAspect::Provenance]);
        true
    } else {
        false
    }
}

/// One unique affected node with its reasons.
#[derive(Debug, Clone, PartialEq, Eq)]
pub struct AffectedNode {
    node_id: NodeId,
    node_kind: Option<NodeKind>,
    status: ImpactNodeStatus,
    availability: ImpactNodeAvailability,
    depth: usize,
    reasons: Vec<ImpactReason>,
}

/// Affected node view: identifier, kind, status, availability, depth, reasons.
pub type AffectedNodeView = (
    Seq<char>,
    Option<NodeKind>,
    ImpactNodeStatus,
    ImpactNodeAvailability,
    usize,
    Seq<ImpactReasonView>,
);

impl View for AffectedNode {
    type V = AffectedNodeView;

    closed spec fn view(&self) -> AffectedNodeView {
        (
            self.node_id@,
            self.node_kind,
            self.status,
            self.availability,
            self.depth,
            self.reasons@.map_values(|r: ImpactReason| r@),
        )
    }
}

impl AffectedNode {
    /// Creates an affected node with its first reason.
    pub fn new(
        node_id: NodeId,
        node_kind: Option<NodeKind>,
        status: ImpactNodeStatus,
        availability: ImpactNodeAvailability,
        depth: usize,
        reason: ImpactReason,
    ) -> (r: Self)
        ensures
            r@ == (node_id@, node_kind, status, availability, depth, seq![reason@]),
    {
        let mut reasons = Vec::new();
        reasons.push(reason);
        let r = AffectedNode { node_id, node_kind, status, availability, depth, reasons };
        assert(r.reasons@.map_values(|x: ImpactReason| x@) =~= seq![reason@]);
        r
    }

    /// Records one more way the node is affected: the status merges, the
    /// least depth stays, and the reason joins the ordered reasons unless
    /// present.
    pub(crate) fn add_reason(&mut self, status: ImpactNodeStatus, depth: usize, reason: ImpactReason)
        ensures
            final(self)@ == (
                old(self)@.0,
                old(self)@.1,
                merged_status(old(self)@.2, status),
                old(self)@.3,
                if depth < old(self)@.4 {
                    depth
                } else {
                    old(self)@.4
                },
                crate::graph::impact_analysis::reason_insert(old(self)@.5, reason@),
            ),
    {
        self.status = merge_status(self.status, status);
        if depth < self.depth {
            self.depth = depth;
        }
        crate::graph::impact_analysis::insert_reason(&mut self.reasons, reason);
    }

    /// Returns the affected node identifier.
    pub fn node_id(&self) -> (r: &NodeId)
        ensures
            r@ == self@.0,
    {
        &self.node_id
    }

    /// Returns the node kind from an available snapshot.
    pub fn node_kind(&self) -> (r: Option<NodeKind>)
        ensures
            r == self@.1,
    {
        self.node_kind
    }

    /// Returns the high-level affected status.
    pub fn status(&self) -> (r: ImpactNodeStatus)
        ensures
            r == self@.2,
    {
        self.status
    }

    /// Returns snapshot availability of this node.
    pub fn availability(&self) -> (r: ImpactNodeAvailability)
        ensures
            r == self@.3,
    {
        self.availability
    }

    /// Returns minimal depth from any seed.
    pub fn depth(&self) -> (r: usize)
        ensures
            r == self@.4,
    {
        self.depth
    }

    /// Returns all reasons in deterministic order.
    pub fn reasons(&self) -> (r: &[ImpactReason])
        ensures
            r@.map_values(|x: ImpactReason| x@) == self@.5,
    {
        self.reasons.as_slice()
    }

    /// Returns the first reason, when there is one.
    pub fn primary_reason(&self) -> (r: Option<&ImpactReason>)
        ensures
            match r {
                Some(x) => self@.5.len() > 0 && x@ == self@.5[0],
                None => self@.5.len() == 0,
            },
    {
        if self.reasons.len() == 0 {
            None
        } else {
            Some(&self.reasons[0])
        }
    }
}

/// Number of nodes with status `status`.
pub open spec fn count_status(nodes: Seq<AffectedNodeView>, status: ImpactNodeStatus) -> nat
    decreases nodes.len(),
{
    if nodes.len() == 0 {
        0
    } else {
        count_status(nodes.drop_last(), status) + if nodes.last().2 == status {
            1nat
        } else {
            0nat
        }
    }
}

/// Number of nodes whose availability satisfies `current` (present in the
/// current snapshot) or its negation.
pub open spec fn count_current(nodes: Seq<AffectedNodeView>, current: bool) -> nat
    decreases nodes.len(),
{
    if nodes.len() == 0 {
        0
    } else {
        count_current(nodes.drop_last(), current) + if (nodes.last().3
            != ImpactNodeAvailability::PreviousOnly) == current {
            1nat
        } else {
            0nat
        }
    }
}

/// Largest depth among the nodes, `0` when there are none.
pub open spec fn max_node_depth(nodes: Seq<AffectedNodeView>) -> nat
    decreases nodes.len(),
{
    if nodes.len() == 0 {
        0
    } else {
        let rest = max_node_depth(nodes.drop_last());
        if nodes.last().4 > rest {
            nodes.last().4 as nat
        } else {
            rest
        }
    }
}

proof fn lemma_counts_bounded(nodes: Seq<AffectedNodeView>, status: ImpactNodeStatus, current: bool)
    ensures
        count_status(nodes, status) <= nodes.len(),
        count_current(nodes, current) <= nodes.len(),
        max_node_depth(nodes) <= usize::MAX,
    decreases nodes.len(),
{
    if nodes.len() > 0 {
        lemma_counts_bounded(nodes.drop_last(), status, current);
    }
}

/// Compact impact analysis counters.
#[derive(Debug, Clone, Copy, PartialEq, Eq)]
pub struct SemanticImpactSummary {
    seed_node_changes: usize,
    seed_edge_changes: usize,
    directly_changed_nodes: usize,
    transitively_affected_nodes: usize,
    removed_nodes: usize,
    previous_only_nodes: usize,
    current_nodes: usize,
    max_reached_depth: usize,
    total_affected_nodes: usize,
    requested_max_depth: usize,
}

impl View for SemanticImpactSummary {
    type V = Seq<int>;

    /// The ten counters in declaration order.
    closed spec fn view(&self) -> Seq<int> {
        seq![
            self.seed_node_changes as int,
            self.seed_edge_changes as int,
            self.directly_changed_nodes as int,
            self.transitively_affected_nodes as int,
            self.removed_nodes as int,
            self.previous_only_nodes as int,
            self.current_nodes as int,
            self.max_reached_depth as int,
            self.total_affected_nodes as int,
            self.requested_max_depth as int,
        ]
    }
}

/// The summary counters of `nodes`.
pub open spec fn summary_of(
    seed_node_changes: usize,
    seed_edge_changes: usize,
    nodes: Seq<AffectedNodeView>,
    requested_max_depth: usize,
) -> Seq<int> {
    seq![
        seed_node_changes as int,
        seed_edge_changes as int,
        count_status(nodes, ImpactNodeStatus::DirectlyChanged) as int,
        count_status(nodes, ImpactNodeStatus::TransitivelyAffected) as int,
        count_status(nodes, ImpactNodeStatus::Removed) as int,
        count_current(nodes, false) as int,
        count_current(nodes, true) as int,
        max_node_depth(nodes) as int,
        nodes.len() as int,
        requested_max_depth as int,
    ]
}

impl SemanticImpactSummary {
    /// Counts the affected nodes by status and availability and takes their
    /// maximum depth.
    pub fn new(
        seed_node_changes: usize,
        seed_edge_changes: usize,
        nodes: &[AffectedNode],
        requested_max_depth: usize,
    ) -> (r: Self)
        ensures
            r@ == summary_of(
                seed_node_changes,
                seed_edge_changes,
                nodes@.map_values(|n: AffectedNode| n@),
                requested_max_depth,
            ),
    {
        let ghost views = nodes@.map_values(|n: AffectedNode| n@);
        let mut direct: usize = 0;
        let mut transitive: usize = 0;
        let mut removed: usize = 0;
        let mut previous_only: usize = 0;
        let mut current: usize = 0;
        let mut max_depth: usize = 0;
        let mut i: usize = 0;
        while i < nodes.len()
            invariant
                i <= nodes@.len(),
                views == nodes@.map_values(|n: AffectedNode| n@),
                direct == count_status(views.take(i as int), ImpactNodeStatus::DirectlyChanged),
                transitive == count_status(
                    views.take(i as int),
                    ImpactNodeStatus::TransitivelyAffected,
                ),
                removed == count_status(views.take(i as int), ImpactNodeStatus::Removed),
                previous_only == count_current(views.take(i as int), false),
                current == count_current(views.take(i as int), true),
                max_depth == max_node_depth(views.take(i as int)),
            decreases nodes@.len() - i,
        {
            let ghost prefix = views.take(i + 1);
            assert(prefix.drop_last() == views.take(i as int));
            assert(prefix.last() == nodes@[i as int]@);
            proof {
                lemma_counts_bounded(views.take(i as int), ImpactNodeStatus::DirectlyChanged, true);
                lemma_counts_bounded(views.take(i as int), ImpactNodeStatus::TransitivelyAffected, false);
                lemma_counts_bounded(views.take(i as int), ImpactNodeStatus::Removed, false);
            }
            let node = &nodes[i];
            let status = node.status();
            if status == ImpactNodeStatus::DirectlyChanged {
                direct = direct + 1;
            } else if status == ImpactNodeStatus::TransitivelyAffected {
                transitive = transitive + 1;
            } else {
                removed = removed + 1;
            }
            if node.availability() == ImpactNodeAvailability::PreviousOnly {
                previous_only = previous_only + 1;
            } else {
                current = current + 1;
            }
            if node.depth() > max_depth {
                max_depth = node.depth();
            }
            i = i + 1;
        }
        assert(views.take(nodes@.len() as int) == views);
        SemanticImpactSummary {
            seed_node_changes,
            seed_edge_changes,
            directly_changed_nodes: direct,
            transitively_affected_nodes: transitive,
            removed_nodes: removed,
            previous_only_nodes: previous_only,
            current_nodes: current,
            max_reached_depth: max_depth,
            total_affected_nodes: nodes.len(),
            requested_max_depth,
        }
    }

    /// Returns seed node change count.
    pub fn seed_node_changes(self) -> (r: usize)
        ensures
            r == self@[0],
    {
        self.seed_node_changes
    }

    /// Returns seed edge change count.
    pub fn seed_edge_changes(self) -> (r: usize)
        ensures
            r == self@[1],
    {
        self.seed_edge_changes
    }

    /// Returns directly changed node count.
    pub fn directly_changed_nodes(self) -> (r: usize)
        ensures
            r == self@[2],
    {
        self.directly_changed_nodes
    }

    /// Returns transitively affected node count.
    pub fn transitively_affected_nodes(self) -> (r: usize)
        ensures
            r == self@[3],
    {
        self.transitively_affected_nodes
    }

    /// Returns removed affected node count.
    pub fn removed_nodes(self) -> (r: usize)
        ensures
            r == self@[4],
    {
        self.removed_nodes
    }

    /// Returns nodes that only exist in the previous snapshot.
    pub fn previous_only_nodes(self) -> (r: usize)
        ensures
            r == self@[5],
    {
        self.previous_only_nodes
    }

    /// Returns nodes that exist in the current snapshot.
    pub fn current_nodes(self) -> (r: usize)
        ensures
            r == self@[6],
    {
        self.current_nodes
    }

    /// Returns maximum reached depth.
    pub fn max_reached_depth(self) -> (r: usize)
        ensures
            r == self@[7],
    {
        self.max_reached_depth
    }

    /// Returns total unique affected nodes.
    pub fn total_affected_nodes(self) -> (r: usize)
        ensures
            r == self@[8],
    {
        self.total_affected_nodes
    }

    /// Returns requested maximum depth.
    pub fn requested_max_depth(self) -> (r: usize)
        ensures
            r == self@[9],
    {
        self.requested_max_depth
    }
}

/// Every affected node has exactly one status, and exactly one of "only in the
/// previous snapshot" or "present in the current snapshot": the status counters
/// and the availability counters of a summary each add up to its total.
pub proof fn law_summary_partitions_affected_nodes(nodes: Seq<AffectedNodeView>)
    ensures
        count_status(nodes, ImpactNodeStatus::DirectlyChanged) + count_status(
            nodes,
            ImpactNodeStatus::TransitivelyAffected,
        ) + count_status(nodes, ImpactNodeStatus::Removed) == nodes.len(),
        count_current(nodes, false) + count_current(nodes, true) == nodes.len(),
    decreases nodes.len(),
{
    if nodes.len() > 0 {
        law_summary_partitions_affected_nodes(nodes.drop_last());
    }
}

/// Owned impact analysis result.
#[derive(Debug, Clone, PartialEq, Eq)]
pub struct SemanticImpactResult {
    affected_nodes: Vec<AffectedNode>,
    summary: SemanticImpactSummary,
    completeness: ImpactCompleteness,
}

impl SemanticImpactResult {
    /// Wraps affected nodes with their summary counters.
    pub fn new(
        affected_nodes: Vec<AffectedNode>,
        seed_node_changes: usize,
        seed_edge_changes: usize,
        requested_max_depth: usize,
    ) -> (r: Self)
        ensures
            r.spec_nodes() == affected_nodes@.map_values(|n: AffectedNode| n@),
            r.spec_summary()@ == summary_of(
                seed_node_changes,
                seed_edge_changes,
                affected_nodes@.map_values(|n: AffectedNode| n@),
                requested_max_depth,
            ),
    {
        let summary = SemanticImpactSummary::new(
            seed_node_changes,
            seed_edge_changes,
            affected_nodes.as_slice(),
            requested_max_depth,
        );
        SemanticImpactResult {
            affected_nodes,
            summary,
            completeness: ImpactCompleteness::CompleteWithinRequestedDepth,
        }
    }

    /// Affected node views.
    pub closed spec fn spec_nodes(&self) -> Seq<AffectedNodeView> {
        self.affected_nodes@.map_values(|n: AffectedNode| n@)
    }

    /// Summary counters.
    pub closed spec fn spec_summary(&self) -> SemanticImpactSummary {
        self.summary
    }

    /// Returns the unique affected nodes.
    pub fn affected_nodes(&self) -> (r: &[AffectedNode])
        ensures
            r@.map_values(|n: AffectedNode| n@) == self.spec_nodes(),
    {
        self.affected_nodes.as_slice()
    }

    /// Returns compact counters.
    pub fn summary(&self) -> (r: SemanticImpactSummary)
        ensures
            r == self.spec_summary(),
    {
        self.summary
    }

    /// Returns completeness status.
    pub fn completeness(&self) -> (r: ImpactCompleteness)
        ensures
            r == ImpactCompleteness::CompleteWithinRequestedDepth,
    {
        ImpactCompleteness::CompleteWithinRequestedDepth
    }

    /// Returns `true` when no affected nodes were found.
    pub fn is_empty(&self) -> (r: bool)
        ensures
            r == (self.spec_nodes().len() == 0),
    {
        self.affected_nodes.len() == 0
    }
}

/// Typed impact analysis error.
#[derive(Debug, Clone, PartialEq, Eq)]
pub enum ImpactAnalysisError {
    /// A node seed is absent from the graph snapshot where it must exist.
    MissingSeedNode {
        /// Missing node identifier.
        node: NodeId,
        /// Required snapshot.
        snapshot: ImpactSnapshot,
    },
    /// An edge seed is absent from the graph snapshot where it must exist.
    MissingSeedEdge {
        /// Missing edge identifier.
        edge: EdgeId,
        /// Required snapshot.
        snapshot: ImpactSnapshot,
    },
}

/// View of an analysis error: whether an edge (else a node) is missing, its
/// identifier and the snapshot where it must exist.
pub open spec fn impact_error_view(e: ImpactAnalysisError) -> (bool, Seq<char>, ImpactSnapshot) {
    match e {
        ImpactAnalysisError::MissingSeedNode { node, snapshot } => (false, node@, snapshot),
        ImpactAnalysisError::MissingSeedEdge { edge, snapshot } => (true, edge@, snapshot),
    }
}

/// Text of a snapshot in error messages.
pub open spec fn snapshot_text(s: ImpactSnapshot) -> Seq<char> {
    match s {
        ImpactSnapshot::Previous => "Previous"@,
        ImpactSnapshot::Current => "Current"@,
    }
}

impl ImpactAnalysisError {
    /// Returns the human-readable error text.
    pub fn message(&self) -> (r: String)
        ensures
            r@ == (if impact_error_view(*self).0 {
                "impact seed edge `"@
            } else {
                "impact seed node `"@
            }) + impact_error_view(*self).1 + "` is missing in "@ + snapshot_text(impact_error_view(*self).2)
                + " snapshot"@,
    {
        let mut out = String::new();
        match self {
            ImpactAnalysisError::MissingSeedNode { node, snapshot } => {
                push_str(&mut out, "impact seed node `");
                push_str(&mut out, node.as_str());
                push_str(&mut out, "` is missing in ");
                push_str(&mut out, snapshot_name(*snapshot));
                push_str(&mut out, " snapshot");
            },
            ImpactAnalysisError::MissingSeedEdge { edge, snapshot } => {
                push_str(&mut out, "impact seed edge `");
                push_str(&mut out, edge.as_str());
                push_str(&mut out, "` is missing in ");
                push_str(&mut out, snapshot_name(*snapshot));
                push_str(&mut out, " snapshot");
            },
        }
        out
    }
}

fn snapshot_name(s: ImpactSnapshot) -> (r: &'static str)
    ensures
        r@ == snapshot_text(s),
{
    match s {
        ImpactSnapshot::Previous => "Previous",
        ImpactSnapshot::Current => "Current",
    }
}

/// Stateless graph-level impact analyzer.
#[derive(Debug, Default, Clone, Copy)]
pub struct SemanticImpactAnalyzer;

proof fn lemma_max_depth_bound(nodes: Seq<AffectedNodeView>, bound: usize)
    requires
        forall|k: int| 0 <= k < nodes.len() ==> (#[trigger] nodes[k]).4 <= bound,
    ensures
        max_node_depth(nodes) <= bound,
    decreases nodes.len(),
{
    if nodes.len() > 0 {
        assert forall|k: int| 0 <= k < nodes.drop_last().len() implies (#[trigger] nodes.drop_last()[k]).4
            <= bound by {
            assert(nodes.drop_last()[k] == nodes[k]);
        }
        lemma_max_depth_bound(nodes.drop_last(), bound);
        assert(nodes.last() == nodes[nodes.len() - 1]);
    }
}

/// A summary of affected nodes within the requested depth counts each node
/// once by status and once by availability, its total is the number of
/// nodes, its seed counters are the ones given, and its deepest node lies
/// within the requested depth.
pub proof fn law_impact_summary_is_consistent(
    seed_node_changes: usize,
    seed_edge_changes: usize,
    nodes: Seq<AffectedNodeView>,
    requested_max_depth: usize,
)
    requires
        forall|k: int| 0 <= k < nodes.len() ==> (#[trigger] nodes[k]).4 <= requested_max_depth,
    ensures
        ({
            let s = summary_of(seed_node_changes, seed_edge_changes, nodes, requested_max_depth);
            &&& s[0] == seed_node_changes
            &&& s[1] == seed_edge_changes
            &&& s[8] == nodes.len()
            &&& s[8] == s[2] + s[3] + s[4]
            &&& s[8] == s[5] + s[6]
            &&& s[7] <= s[9]
            &&& s[9] == requested_max_depth
        }),
{
    law_summary_partitions_affected_nodes(nodes);
    lemma_max_depth_bound(nodes, requested_max_depth);
}

} // verus!
