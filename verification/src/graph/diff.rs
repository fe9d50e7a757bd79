//! Graph diff vocabulary: change kinds, modified aspects and diff counters.

use vstd::prelude::*;

use crate::entity::EntityName;
use crate::graph::edge::{EdgeView, GraphEdge};
use crate::graph::edge_identity::edge_id;
use crate::graph::identity::{EdgeId, NodeId};
use crate::graph::kind::{EdgeKind, NodeKind};
use crate::graph::node::{GraphNode, NodeView};
use crate::graph::provenance::{
    duplicate_provenance, normalize, normalized_provenance, provenance_equal, provenance_views,
    Provenance, ProvenanceView,
};
use crate::graph::semantic_graph::{graph_wf, GraphView, SemanticGraph};
use crate::ordered::{entry_order, lemma_sorted_unique_ordered, sorted_unique};
use crate::text::lex_lt;
use crate::graph::semantic_graph::edge_ref_views;
use crate::graph::semantic_query::{edge_key, edges_by_id, SemanticGraphQuery};
use crate::text::text_equal;

verus! {

/// Category of an entity change between two graph snapshots.
#[derive(Debug, Clone, Copy, PartialEq, Eq, PartialOrd, Ord, Hash, Structural)]
pub enum GraphChangeKind {
    /// The entity exists only in the new graph.
    Added,
    /// The entity exists only in the old graph.
    Removed,
    /// The entity exists in both graphs but typed content changed.
    Modified,
}

/// Modified node aspect.
#[derive(Debug, Clone, Copy, PartialEq, Eq, PartialOrd, Ord, Hash, Structural)]
pub enum NodeModifiedAspect {
    /// Node semantic content (canonical name, kind and typed payload) changed.
    SemanticContent,
    /// Node provenance changed after order-insensitive normalization.
    Provenance,
}

/// Modified edge aspect.
#[derive(Debug, Clone, Copy, PartialEq, Eq, PartialOrd, Ord, Hash, Structural)]
pub enum EdgeModifiedAspect {
    /// Edge provenance changed after order-insensitive normalization.
    Provenance,
}

/// Counters of a graph diff: added, removed and modified nodes and edges.
#[derive(Debug, Clone, Copy, PartialEq, Eq)]
pub struct GraphDiffSummary {
    nodes_added: usize,
    nodes_removed: usize,
    nodes_modified: usize,
    edges_added: usize,
    edges_removed: usize,
    edges_modified: usize,
}

impl View for GraphDiffSummary {
    type V = (usize, usize, usize, usize, usize, usize);

    closed spec fn view(&self) -> (usize, usize, usize, usize, usize, usize) {
        (
            self.nodes_added,
            self.nodes_removed,
            self.nodes_modified,
            self.edges_added,
            self.edges_removed,
            self.edges_modified,
        )
    }
}

/// Sum of the six graph diff counters.
pub open spec fn graph_diff_total(v: (usize, usize, usize, usize, usize, usize)) -> int {
    v.0 + v.1 + v.2 + v.3 + v.4 + v.5
}

impl GraphDiffSummary {
    /// Creates graph diff counters.
    pub fn new(
        nodes_added: usize,
        nodes_removed: usize,
        nodes_modified: usize,
        edges_added: usize,
        edges_removed: usize,
        edges_modified: usize,
    ) -> (r: Self)
        ensures
            r@ == (
                nodes_added,
                nodes_removed,
                nodes_modified,
                edges_added,
                edges_removed,
                edges_modified,
            ),
    {
        GraphDiffSummary {
            nodes_added,
            nodes_removed,
            nodes_modified,
            edges_added,
            edges_removed,
            edges_modified,
        }
    }

    /// Returns the number of added nodes.
    pub fn nodes_added(self) -> (r: usize)
        ensures
            r == self@.0,
    {
        self.nodes_added
    }

    /// Returns the number of removed nodes.
    pub fn nodes_removed(self) -> (r: usize)
        ensures
            r == self@.1,
    {
        self.nodes_removed
    }

    /// Returns the number of modified nodes.
    pub fn nodes_modified(self) -> (r: usize)
        ensures
            r == self@.2,
    {
        self.nodes_modified
    }

    /// Returns the number of added edges.
    pub fn edges_added(self) -> (r: usize)
        ensures
            r == self@.3,
    {
        self.edges_added
    }

    /// Returns the number of removed edges.
    pub fn edges_removed(self) -> (r: usize)
        ensures
            r == self@.4,
    {
        self.edges_removed
    }

    /// Returns the number of modified edges.
    pub fn edges_modified(self) -> (r: usize)
        ensures
            r == self@.5,
    {
        self.edges_modified
    }

    /// Returns the total number of node and edge changes.
    pub fn total_changes(self) -> (r: usize)
        requires
            graph_diff_total(self@) <= usize::MAX,
        ensures
            r == graph_diff_total(self@),
    {
        self.nodes_added + self.nodes_removed + self.nodes_modified + self.edges_added
            + self.edges_removed + self.edges_modified
    }
}


/// Node snapshot view: identifier, name, kind and normalized provenance.
pub type NodeSnapshotView = (Seq<char>, Seq<char>, NodeKind, Seq<ProvenanceView>);

/// Edge snapshot view: stable identifier, source, target, kind and
/// normalized provenance.
pub type EdgeSnapshotView = (Seq<char>, Seq<char>, Seq<char>, EdgeKind, Seq<ProvenanceView>);

/// Node change view: identifier, change kind, node kind, old and new state
/// and modified aspects.
pub type NodeChangeView = (
    Seq<char>,
    GraphChangeKind,
    NodeKind,
    Option<NodeSnapshotView>,
    Option<NodeSnapshotView>,
    Seq<NodeModifiedAspect>,
);

/// Edge change view: identifier, change kind, source, target, edge kind, old
/// and new state and modified aspects.
pub type EdgeChangeView = (
    Seq<char>,
    GraphChangeKind,
    Seq<char>,
    Seq<char>,
    EdgeKind,
    Option<EdgeSnapshotView>,
    Option<EdgeSnapshotView>,
    Seq<EdgeModifiedAspect>,
);

/// Diff view: added, removed and modified nodes, then added, removed and
/// modified edges.
pub type DiffView = (
    Seq<NodeChangeView>,
    Seq<NodeChangeView>,
    Seq<NodeChangeView>,
    Seq<EdgeChangeView>,
    Seq<EdgeChangeView>,
    Seq<EdgeChangeView>,
);

/// Snapshot of a node.
pub open spec fn node_snapshot(v: NodeView) -> NodeSnapshotView {
    (v.id, v.name, v.kind, normalize(v.provenance))
}

/// Snapshot of an edge.
pub open spec fn edge_snapshot(x: EdgeView) -> EdgeSnapshotView {
    (edge_key(x).0, x.source, x.target, x.kind, normalize(x.provenance))
}

/// Node snapshots of a graph, in identifier order.
pub open spec fn node_snapshots(g: GraphView) -> Seq<NodeSnapshotView> {
    g.nodes.map_values(|v: NodeView| node_snapshot(v))
}

/// Edge snapshots of a graph, in stable edge-identifier order.
pub open spec fn edge_snapshots(g: GraphView) -> Seq<EdgeSnapshotView> {
    edges_by_id(g.edges).map_values(|x: EdgeView| edge_snapshot(x))
}

/// The first node snapshot with identifier `id`.
pub open spec fn find_node(s: Seq<NodeSnapshotView>, id: Seq<char>) -> Option<NodeSnapshotView>
    decreases s.len(),
{
    if s.len() == 0 {
        None
    } else if s[0].0 == id {
        Some(s[0])
    } else {
        find_node(s.drop_first(), id)
    }
}

/// The first edge snapshot with identifier `id`.
pub open spec fn find_edge(s: Seq<EdgeSnapshotView>, id: Seq<char>) -> Option<EdgeSnapshotView>
    decreases s.len(),
{
    if s.len() == 0 {
        None
    } else if s[0].0 == id {
        Some(s[0])
    } else {
        find_edge(s.drop_first(), id)
    }
}

/// Aspects in which two snapshots of one node differ: semantic content (name
/// or kind), then provenance.
pub open spec fn node_aspects(a: NodeSnapshotView, b: NodeSnapshotView) -> Seq<NodeModifiedAspect> {
    let semantic: Seq<NodeModifiedAspect> = if a.1 != b.1 || a.2 != b.2 {
        seq![NodeModifiedAspect::SemanticContent]
    } else {
        Seq::empty()
    };
    if a.3 != b.3 {
        semantic.push(NodeModifiedAspect::Provenance)
    } else {
        semantic
    }
}

/// Removed and modified nodes, walking the old snapshots in order.
pub open spec fn node_removals(old: Seq<NodeSnapshotView>, new: Seq<NodeSnapshotView>) -> (
    Seq<NodeChangeView>,
    Seq<NodeChangeView>,
)
    decreases old.len(),
{
    if old.len() == 0 {
        (Seq::empty(), Seq::empty())
    } else {
        let (removed, modified) = node_removals(old.drop_last(), new);
        let o = old.last();
        match find_node(new, o.0) {
            Some(n) => {
                let aspects = node_aspects(o, n);
                if aspects.len() > 0 {
                    (removed, modified.push((o.0, GraphChangeKind::Modified, n.2, Some(o), Some(n), aspects)))
                } else {
                    (removed, modified)
                }
            },
            None => (removed.push((o.0, GraphChangeKind::Removed, o.2, Some(o), None, Seq::empty())), modified),
        }
    }
}

/// Added nodes, walking the new snapshots in order.
pub open spec fn node_additions(old: Seq<NodeSnapshotView>, new: Seq<NodeSnapshotView>) -> Seq<NodeChangeView>
    decreases new.len(),
{
    if new.len() == 0 {
        Seq::empty()
    } else {
        let added = node_additions(old, new.drop_last());
        let n = new.last();
        if find_node(old, n.0) is None {
            added.push((n.0, GraphChangeKind::Added, n.2, None, Some(n), Seq::empty()))
        } else {
            added
        }
    }
}

/// Removed and modified edges, walking the old snapshots in order; only
/// provenance can change while the identity stays.
pub open spec fn edge_removals(old: Seq<EdgeSnapshotView>, new: Seq<EdgeSnapshotView>) -> (
    Seq<EdgeChangeView>,
    Seq<EdgeChangeView>,
)
    decreases old.len(),
{
    if old.len() == 0 {
        (Seq::empty(), Seq::empty())
    } else {
        let (removed, modified) = edge_removals(old.drop_last(), new);
        let o = old.last();
        match find_edge(new, o.0) {
            Some(n) => if o.4 != n.4 {
                (
                    removed,
                    modified.push(
                        (
                            o.0,
                            GraphChangeKind::Modified,
                            o.1,
                            o.2,
                            o.3,
                            Some(o),
                            Some(n),
                            seq![EdgeModifiedAspect::Provenance],
                        ),
                    ),
                )
            } else {
                (removed, modified)
            },
            None => (
                removed.push((o.0, GraphChangeKind::Removed, o.1, o.2, o.3, Some(o), None, Seq::empty())),
                modified,
            ),
        }
    }
}

/// Added edges, walking the new snapshots in order.
pub open spec fn edge_additions(old: Seq<EdgeSnapshotView>, new: Seq<EdgeSnapshotView>) -> Seq<EdgeChangeView>
    decreases new.len(),
{
    if new.len() == 0 {
        Seq::empty()
    } else {
        let added = edge_additions(old, new.drop_last());
        let n = new.last();
        if find_edge(old, n.0) is None {
            added.push((n.0, GraphChangeKind::Added, n.1, n.2, n.3, None, Some(n), Seq::empty()))
        } else {
            added
        }
    }
}

/// The directional diff `old -> new`.
pub open spec fn graph_diff(old: GraphView, new: GraphView) -> DiffView {
    let (on, nn) = (node_snapshots(old), node_snapshots(new));
    let (oe, ne) = (edge_snapshots(old), edge_snapshots(new));
    (
        node_additions(on, nn),
        node_removals(on, nn).0,
        node_removals(on, nn).1,
        edge_additions(oe, ne),
        edge_removals(oe, ne).0,
        edge_removals(oe, ne).1,
    )
}

/// No two node snapshots share an identifier.
pub open spec fn node_ids_distinct(s: Seq<NodeSnapshotView>) -> bool {
    forall|a: int, b: int| 0 <= a < b < s.len() ==> (#[trigger] s[a]).0 != (#[trigger] s[b]).0
}

/// No two edge snapshots share an identifier.
pub open spec fn edge_ids_distinct(s: Seq<EdgeSnapshotView>) -> bool {
    forall|a: int, b: int| 0 <= a < b < s.len() ==> (#[trigger] s[a]).0 != (#[trigger] s[b]).0
}

proof fn lemma_find_node_distinct(s: Seq<NodeSnapshotView>, i: int)
    requires
        0 <= i < s.len(),
        node_ids_distinct(s),
    ensures
        find_node(s, s[i].0) == Some(s[i]),
    decreases i,
{
    if i > 0 {
        let t = s.drop_first();
        assert(s[0].0 != s[i].0);
        assert(t[i - 1] == s[i]);
        assert(node_ids_distinct(t)) by {
            assert forall|a: int, b: int| 0 <= a < b < t.len() implies (#[trigger] t[a]).0 != (#[trigger] t[b]).0 by {
                assert(t[a] == s[a + 1] && t[b] == s[b + 1]);
            }
        }
        lemma_find_node_distinct(t, i - 1);
    }
}

proof fn lemma_find_edge_distinct(s: Seq<EdgeSnapshotView>, i: int)
    requires
        0 <= i < s.len(),
        edge_ids_distinct(s),
    ensures
        find_edge(s, s[i].0) == Some(s[i]),
    decreases i,
{
    if i > 0 {
        let t = s.drop_first();
        assert(s[0].0 != s[i].0);
        assert(t[i - 1] == s[i]);
        assert(edge_ids_distinct(t)) by {
            assert forall|a: int, b: int| 0 <= a < b < t.len() implies (#[trigger] t[a]).0 != (#[trigger] t[b]).0 by {
                assert(t[a] == s[a + 1] && t[b] == s[b + 1]);
            }
        }
        lemma_find_edge_distinct(t, i - 1);
    }
}

proof fn lemma_node_changes_same(s: Seq<NodeSnapshotView>, k: int)
    requires
        node_ids_distinct(s),
        0 <= k <= s.len(),
    ensures
        node_removals(s.take(k), s) == (Seq::<NodeChangeView>::empty(), Seq::<NodeChangeView>::empty()),
        node_additions(s, s.take(k)) == Seq::<NodeChangeView>::empty(),
    decreases k,
{
    if k > 0 {
        lemma_node_changes_same(s, k - 1);
        assert(s.take(k).drop_last() =~= s.take(k - 1));
        assert(s.take(k).last() == s[k - 1]);
        lemma_find_node_distinct(s, k - 1);
        assert(node_aspects(s[k - 1], s[k - 1]) =~= Seq::<NodeModifiedAspect>::empty());
    } else {
        assert(s.take(0) =~= Seq::<NodeSnapshotView>::empty());
    }
}

proof fn lemma_edge_changes_same(s: Seq<EdgeSnapshotView>, k: int)
    requires
        edge_ids_distinct(s),
        0 <= k <= s.len(),
    ensures
        edge_removals(s.take(k), s) == (Seq::<EdgeChangeView>::empty(), Seq::<EdgeChangeView>::empty()),
        edge_additions(s, s.take(k)) == Seq::<EdgeChangeView>::empty(),
    decreases k,
{
    if k > 0 {
        lemma_edge_changes_same(s, k - 1);
        assert(s.take(k).drop_last() =~= s.take(k - 1));
        assert(s.take(k).last() == s[k - 1]);
        lemma_find_edge_distinct(s, k - 1);
    } else {
        assert(s.take(0) =~= Seq::<EdgeSnapshotView>::empty());
    }
}

/// Snapshots of a graph have distinct identifiers.
pub proof fn lemma_snapshot_ids_distinct(g: GraphView)
    requires
        graph_wf(g),
    ensures
        node_ids_distinct(node_snapshots(g)),
        edge_ids_distinct(edge_snapshots(g)),
{
    let ns = node_snapshots(g);
    assert forall|a: int, b: int| 0 <= a < b < ns.len() implies (#[trigger] ns[a]).0 != (#[trigger] ns[b]).0 by {
        assert(lex_lt(g.nodes[a].id, g.nodes[b].id));
        crate::text::lemma_lex_order(g.nodes[a].id, g.nodes[a].id, g.nodes[a].id);
    }
    let entries = g.edges.map_values(|x: EdgeView| (edge_key(x), x));
    let u = sorted_unique(entries);
    lemma_sorted_unique_ordered(entries);
    let es = edge_snapshots(g);
    assert(es.len() == u.len());
    assert forall|a: int, b: int| 0 <= a < b < es.len() implies (#[trigger] es[a]).0 != (#[trigger] es[b]).0 by {
        let ja = choose|j: int| 0 <= j < entries.len() && entries[j] == u[a];
        let jb = choose|j: int| 0 <= j < entries.len() && entries[j] == u[b];
        assert(u[a].0 == edge_key(u[a].1));
        assert(u[b].0 == edge_key(u[b].1));
        assert(entry_order()(u[a], u[b]));
        crate::ordered::lemma_key_order(u[a].0, u[a].0, u[a].0);
        assert(es[a].0 == u[a].0.0);
        assert(es[b].0 == u[b].0.0);
    }
}

/// Comparing a graph with itself gives no changes.
pub proof fn lemma_diff_with_itself_is_empty(g: GraphView)
    requires
        graph_wf(g),
    ensures
        graph_diff(g, g) == (
            Seq::<NodeChangeView>::empty(),
            Seq::<NodeChangeView>::empty(),
            Seq::<NodeChangeView>::empty(),
            Seq::<EdgeChangeView>::empty(),
            Seq::<EdgeChangeView>::empty(),
            Seq::<EdgeChangeView>::empty(),
        ),
{
    lemma_snapshot_ids_distinct(g);
    let ns = node_snapshots(g);
    let es = edge_snapshots(g);
    lemma_node_changes_same(ns, ns.len() as int);
    lemma_edge_changes_same(es, es.len() as int);
    assert(ns.take(ns.len() as int) =~= ns);
    assert(es.take(es.len() as int) =~= es);
}

/// Identifiers of node changes, in order.
pub open spec fn node_change_ids(s: Seq<NodeChangeView>) -> Seq<Seq<char>> {
    s.map_values(|c: NodeChangeView| c.0)
}

/// Identifiers of edge changes, in order.
pub open spec fn edge_change_ids(s: Seq<EdgeChangeView>) -> Seq<Seq<char>> {
    s.map_values(|c: EdgeChangeView| c.0)
}

proof fn lemma_node_additions_reverse(old: Seq<NodeSnapshotView>, new: Seq<NodeSnapshotView>)
    ensures
        node_change_ids(node_additions(old, new)) == node_change_ids(node_removals(new, old).0),
    decreases new.len(),
{
    if new.len() > 0 {
        lemma_node_additions_reverse(old, new.drop_last());
        let a = node_additions(old, new.drop_last());
        let r = node_removals(new.drop_last(), old).0;
        let n = new.last();
        if find_node(old, n.0) is None {
            assert(node_change_ids(node_additions(old, new)) =~= node_change_ids(a).push(n.0));
            assert(node_change_ids(node_removals(new, old).0) =~= node_change_ids(r).push(n.0));
        }
    }
}

proof fn lemma_edge_additions_reverse(old: Seq<EdgeSnapshotView>, new: Seq<EdgeSnapshotView>)
    ensures
        edge_change_ids(edge_additions(old, new)) == edge_change_ids(edge_removals(new, old).0),
    decreases new.len(),
{
    if new.len() > 0 {
        lemma_edge_additions_reverse(old, new.drop_last());
        let a = edge_additions(old, new.drop_last());
        let r = edge_removals(new.drop_last(), old).0;
        let n = new.last();
        if find_edge(old, n.0) is None {
            assert(edge_change_ids(edge_additions(old, new)) =~= edge_change_ids(a).push(n.0));
            assert(edge_change_ids(edge_removals(new, old).0) =~= edge_change_ids(r).push(n.0));
        }
    }
}

/// Reversing the direction of a diff swaps what is added and what is
/// removed: the nodes and edges added from `a` to `b` are, in the same order,
/// those removed from `b` to `a`.
pub proof fn lemma_reverse_diff_swaps_additions_and_removals(a: GraphView, b: GraphView)
    ensures
        node_change_ids(graph_diff(a, b).0) == node_change_ids(graph_diff(b, a).1),
        node_change_ids(graph_diff(a, b).1) == node_change_ids(graph_diff(b, a).0),
        edge_change_ids(graph_diff(a, b).3) == edge_change_ids(graph_diff(b, a).4),
        edge_change_ids(graph_diff(a, b).4) == edge_change_ids(graph_diff(b, a).3),
{
    lemma_node_additions_reverse(node_snapshots(a), node_snapshots(b));
    lemma_node_additions_reverse(node_snapshots(b), node_snapshots(a));
    lemma_edge_additions_reverse(edge_snapshots(a), edge_snapshots(b));
    lemma_edge_additions_reverse(edge_snapshots(b), edge_snapshots(a));
}

/// Owned snapshot of a node's state: identifier, canonical name, kind and
/// normalized provenance.
#[derive(Debug, Clone, PartialEq, Eq)]
pub struct NodeSnapshot {
    id: NodeId,
    name: EntityName,
    kind: NodeKind,
    provenance: Vec<Provenance>,
}

impl View for NodeSnapshot {
    type V = NodeSnapshotView;

    closed spec fn view(&self) -> NodeSnapshotView {
        (self.id@, self.name@, self.kind, provenance_views(self.provenance@))
    }
}

impl NodeSnapshot {
    fn from_node(node: &GraphNode) -> (r: Self)
        ensures
            r@ == node_snapshot(node@),
    {
        NodeSnapshot {
            id: NodeId::new(node.id().as_str()),
            name: node.name().duplicate(),
            kind: node.kind(),
            provenance: normalized_provenance(node.provenance()),
        }
    }

    fn duplicate(&self) -> (r: Self)
        ensures
            r@ == self@,
    {
        NodeSnapshot {
            id: self.id.duplicate(),
            name: self.name.duplicate(),
            kind: self.kind,
            provenance: duplicate_provenance(self.provenance.as_slice()),
        }
    }

    /// Returns the stable node identity.
    pub fn id(&self) -> (r: &NodeId)
        ensures
            r@ == self@.0,
    {
        &self.id
    }

    /// Returns the canonical semantic name.
    pub fn name(&self) -> (r: &EntityName)
        ensures
            r@ == self@.1,
    {
        &self.name
    }

    /// Returns the node kind.
    pub fn kind(&self) -> (r: NodeKind)
        ensures
            r == self@.2,
    {
        self.kind
    }

    /// Returns normalized provenance records.
    pub fn provenance(&self) -> (r: &[Provenance])
        ensures
            provenance_views(r@) == self@.3,
    {
        self.provenance.as_slice()
    }
}

/// Owned snapshot of an edge's state: stable identifier, endpoints, kind and
/// normalized provenance.
#[derive(Debug, Clone, PartialEq, Eq)]
pub struct EdgeSnapshot {
    id: EdgeId,
    source: NodeId,
    target: NodeId,
    kind: EdgeKind,
    provenance: Vec<Provenance>,
}

impl View for EdgeSnapshot {
    type V = EdgeSnapshotView;

    closed spec fn view(&self) -> EdgeSnapshotView {
        (self.id@, self.source@, self.target@, self.kind, provenance_views(self.provenance@))
    }
}

impl EdgeSnapshot {
    fn from_edge(edge: &GraphEdge) -> (r: Self)
        ensures
            r@ == edge_snapshot(edge@),
    {
        let source = NodeId::new(edge.source().as_str());
        let target = NodeId::new(edge.target().as_str());
        EdgeSnapshot {
            id: edge_id(source.as_str(), target.as_str(), edge.kind()),
            source,
            target,
            kind: edge.kind(),
            provenance: normalized_provenance(edge.provenance()),
        }
    }

    fn duplicate(&self) -> (r: Self)
        ensures
            r@ == self@,
    {
        EdgeSnapshot {
            id: self.id.duplicate(),
            source: self.source.duplicate(),
            target: self.target.duplicate(),
            kind: self.kind,
            provenance: duplicate_provenance(self.provenance.as_slice()),
        }
    }

    /// Returns the stable edge identity.
    pub fn id(&self) -> (r: &EdgeId)
        ensures
            r@ == self@.0,
    {
        &self.id
    }

    /// Returns the source node identity.
    pub fn source(&self) -> (r: &NodeId)
        ensures
            r@ == self@.1,
    {
        &self.source
    }

    /// Returns the target node identity.
    pub fn target(&self) -> (r: &NodeId)
        ensures
            r@ == self@.2,
    {
        &self.target
    }

    /// Returns the edge kind.
    pub fn kind(&self) -> (r: EdgeKind)
        ensures
            r == self@.3,
    {
        self.kind
    }

    /// Returns normalized provenance records.
    pub fn provenance(&self) -> (r: &[Provenance])
        ensures
            provenance_views(r@) == self@.4,
    {
        self.provenance.as_slice()
    }
}

/// Directional node change record.
#[derive(Debug, Clone, PartialEq, Eq)]
pub struct NodeChange {
    id: NodeId,
    kind: GraphChangeKind,
    node_kind: NodeKind,
    old_state: Option<NodeSnapshot>,
    new_state: Option<NodeSnapshot>,
    modified_aspects: Vec<NodeModifiedAspect>,
}

/// View of an optional node snapshot.
pub open spec fn node_snapshot_option(s: Option<NodeSnapshot>) -> Option<NodeSnapshotView> {
    match s {
        Some(x) => Some(x@),
        None => None,
    }
}

/// View of an optional edge snapshot.
pub open spec fn edge_snapshot_option(s: Option<EdgeSnapshot>) -> Option<EdgeSnapshotView> {
    match s {
        Some(x) => Some(x@),
        None => None,
    }
}

impl View for NodeChange {
    type V = NodeChangeView;

    closed spec fn view(&self) -> NodeChangeView {
        (
            self.id@,
            self.kind,
            self.node_kind,
            node_snapshot_option(self.old_state),
            node_snapshot_option(self.new_state),
            self.modified_aspects@,
        )
    }
}

impl NodeChange {
    /// Returns the node identity.
    pub fn id(&self) -> (r: &NodeId)
        ensures
            r@ == self@.0,
    {
        &self.id
    }

    /// Returns the change category.
    pub fn kind(&self) -> (r: GraphChangeKind)
        ensures
            r == self@.1,
    {
        self.kind
    }

    /// Returns the old node state of removed and modified nodes.
    pub fn old_state(&self) -> (r: Option<&NodeSnapshot>)
        ensures
            match r {
                Some(s) => self@.3 == Some(s@),
                None => self@.3 is None,
            },
    {
        match &self.old_state {
            Some(s) => Some(s),
            None => None,
        }
    }

    /// Returns the new node state of added and modified nodes.
    pub fn new_state(&self) -> (r: Option<&NodeSnapshot>)
        ensures
            match r {
                Some(s) => self@.4 == Some(s@),
                None => self@.4 is None,
            },
    {
        match &self.new_state {
            Some(s) => Some(s),
            None => None,
        }
    }

    /// Returns the modified aspects.
    pub fn modified_aspects(&self) -> (r: &[NodeModifiedAspect])
        ensures
            r@ == self@.5,
    {
        self.modified_aspects.as_slice()
    }

    /// Returns the node kind of an added or removed node, or the new kind of a
    /// modified node.
    pub fn node_kind(&self) -> (r: NodeKind)
        ensures
            r == self@.2,
    {
        self.node_kind
    }
}

/// Directional edge change record.
#[derive(Debug, Clone, PartialEq, Eq)]
pub struct EdgeChange {
    id: EdgeId,
    kind: GraphChangeKind,
    source: NodeId,
    target: NodeId,
    edge_kind: EdgeKind,
    old_state: Option<EdgeSnapshot>,
    new_state: Option<EdgeSnapshot>,
    modified_aspects: Vec<EdgeModifiedAspect>,
}

impl View for EdgeChange {
    type V = EdgeChangeView;

    closed spec fn view(&self) -> EdgeChangeView {
        (
            self.id@,
            self.kind,
            self.source@,
            self.target@,
            self.edge_kind,
            edge_snapshot_option(self.old_state),
            edge_snapshot_option(self.new_state),
            self.modified_aspects@,
        )
    }
}

impl EdgeChange {
    /// Returns the edge identity.
    pub fn id(&self) -> (r: &EdgeId)
        ensures
            r@ == self@.0,
    {
        &self.id
    }

    /// Returns the change category.
    pub fn kind(&self) -> (r: GraphChangeKind)
        ensures
            r == self@.1,
    {
        self.kind
    }

    /// Returns the old edge state of removed and modified edges.
    pub fn old_state(&self) -> (r: Option<&EdgeSnapshot>)
        ensures
            match r {
                Some(s) => self@.5 == Some(s@),
                None => self@.5 is None,
            },
    {
        match &self.old_state {
            Some(s) => Some(s),
            None => None,
        }
    }

    /// Returns the new edge state of added and modified edges.
    pub fn new_state(&self) -> (r: Option<&EdgeSnapshot>)
        ensures
            match r {
                Some(s) => self@.6 == Some(s@),
                None => self@.6 is None,
            },
    {
        match &self.new_state {
            Some(s) => Some(s),
            None => None,
        }
    }

    /// Returns the modified aspects.
    pub fn modified_aspects(&self) -> (r: &[EdgeModifiedAspect])
        ensures
            r@ == self@.7,
    {
        self.modified_aspects.as_slice()
    }

    /// Returns the source node identity.
    pub fn source(&self) -> (r: &NodeId)
        ensures
            r@ == self@.2,
    {
        &self.source
    }

    /// Returns the target node identity.
    pub fn target(&self) -> (r: &NodeId)
        ensures
            r@ == self@.3,
    {
        &self.target
    }

    /// Returns the edge kind.
    pub fn edge_kind(&self) -> (r: EdgeKind)
        ensures
            r == self@.4,
    {
        self.edge_kind
    }
}

/// Views of node changes.
pub open spec fn node_change_views(s: Seq<NodeChange>) -> Seq<NodeChangeView> {
    s.map_values(|c: NodeChange| c@)
}

/// Views of edge changes.
pub open spec fn edge_change_views(s: Seq<EdgeChange>) -> Seq<EdgeChangeView> {
    s.map_values(|c: EdgeChange| c@)
}

/// Views of node snapshots.
pub open spec fn node_snapshot_views(s: Seq<NodeSnapshot>) -> Seq<NodeSnapshotView> {
    s.map_values(|c: NodeSnapshot| c@)
}

/// Views of edge snapshots.
pub open spec fn edge_snapshot_views(s: Seq<EdgeSnapshot>) -> Seq<EdgeSnapshotView> {
    s.map_values(|c: EdgeSnapshot| c@)
}


/// Returns whether two provenance lists hold equal records in equal order.
fn provenance_lists_equal(a: &[Provenance], b: &[Provenance]) -> (r: bool)
    ensures
        r == (provenance_views(a@) == provenance_views(b@)),
{
    if a.len() != b.len() {
        assert(provenance_views(a@).len() != provenance_views(b@).len());
        return false;
    }
    let mut i: usize = 0;
    while i < a.len()
        invariant
            i <= a@.len(),
            a@.len() == b@.len(),
            forall|j: int| 0 <= j < i ==> a@[j]@ == b@[j]@,
        decreases a@.len() - i,
    {
        if !provenance_equal(&a[i], &b[i]) {
            assert(provenance_views(a@)[i as int] != provenance_views(b@)[i as int]);
            return false;
        }
        i = i + 1;
    }
    assert(provenance_views(a@) =~= provenance_views(b@));
    true
}

/// Position of the first node snapshot with identifier `id`.
fn find_node_index(s: &Vec<NodeSnapshot>, id: &NodeId) -> (r: Option<usize>)
    ensures
        match r {
            Some(i) => i < s@.len() && find_node(node_snapshot_views(s@), id@) == Some(s@[i as int]@),
            None => find_node(node_snapshot_views(s@), id@) is None,
        },
{
    let ghost v = node_snapshot_views(s@);
    assert(v.skip(0) =~= v);
    let mut i: usize = 0;
    while i < s.len()
        invariant
            i <= s@.len(),
            v == node_snapshot_views(s@),
            find_node(v, id@) == find_node(v.skip(i as int), id@),
        decreases s@.len() - i,
    {
        assert(v.skip(i as int)[0] == s@[i as int]@);
        if text_equal(s[i].id.as_str(), id.as_str()) {
            return Some(i);
        }
        assert(v.skip(i as int).drop_first() =~= v.skip(i + 1));
        i = i + 1;
    }
    None
}

/// Position of the first edge snapshot with identifier `id`.
fn find_edge_index(s: &Vec<EdgeSnapshot>, id: &EdgeId) -> (r: Option<usize>)
    ensures
        match r {
            Some(i) => i < s@.len() && find_edge(edge_snapshot_views(s@), id@) == Some(s@[i as int]@),
            None => find_edge(edge_snapshot_views(s@), id@) is None,
        },
{
    let ghost v = edge_snapshot_views(s@);
    assert(v.skip(0) =~= v);
    let mut i: usize = 0;
    while i < s.len()
        invariant
            i <= s@.len(),
            v == edge_snapshot_views(s@),
            find_edge(v, id@) == find_edge(v.skip(i as int), id@),
        decreases s@.len() - i,
    {
        assert(v.skip(i as int)[0] == s@[i as int]@);
        if text_equal(s[i].id.as_str(), id.as_str()) {
            return Some(i);
        }
        assert(v.skip(i as int).drop_first() =~= v.skip(i + 1));
        i = i + 1;
    }
    None
}

/// Node snapshots of a graph, in identifier order.
fn node_snapshots_of(graph: &SemanticGraph) -> (r: Vec<NodeSnapshot>)
    ensures
        node_snapshot_views(r@) == node_snapshots(graph@),
{
    let nodes = graph.nodes();
    let ghost v = graph@.nodes;
    let mut out: Vec<NodeSnapshot> = Vec::new();
    let mut i: usize = 0;
    while i < nodes.len()
        invariant
            i <= nodes@.len(),
            crate::graph::semantic_graph::node_views(nodes@) == v,
            node_snapshot_views(out@) == v.take(i as int).map_values(|n: NodeView| node_snapshot(n)),
        decreases nodes@.len() - i,
    {
        let ghost before = out@;
        let snapshot = NodeSnapshot::from_node(&nodes[i]);
        out.push(snapshot);
        assert(node_snapshot_views(out@) =~= node_snapshot_views(before).push(node_snapshot(v[i as int])));
        assert(v.take(i + 1) =~= v.take(i as int).push(v[i as int]));
        i = i + 1;
    }
    assert(v.take(i as int) =~= v);
    out
}

/// Edge snapshots of a graph, in stable edge-identifier order.
fn edge_snapshots_of(graph: &SemanticGraph) -> (r: Vec<EdgeSnapshot>)
    ensures
        edge_snapshot_views(r@) == edge_snapshots(graph@),
{
    let edges = SemanticGraphQuery::new(graph).edges();
    let ghost v = edges_by_id(graph@.edges);
    let mut out: Vec<EdgeSnapshot> = Vec::new();
    let mut i: usize = 0;
    while i < edges.len()
        invariant
            i <= edges@.len(),
            edge_ref_views(edges@) == v,
            edge_snapshot_views(out@) == v.take(i as int).map_values(|x: EdgeView| edge_snapshot(x)),
        decreases edges@.len() - i,
    {
        let ghost before = out@;
        let snapshot = EdgeSnapshot::from_edge(edges[i]);
        out.push(snapshot);
        assert(v[i as int] == edges@[i as int]@);
        assert(edge_snapshot_views(out@) =~= edge_snapshot_views(before).push(edge_snapshot(v[i as int])));
        assert(v.take(i + 1) =~= v.take(i as int).push(v[i as int]));
        i = i + 1;
    }
    assert(v.take(i as int) =~= v);
    out
}

/// Aspects in which two snapshots of one node differ.
fn node_aspects_of(a: &NodeSnapshot, b: &NodeSnapshot) -> (r: Vec<NodeModifiedAspect>)
    ensures
        r@ == node_aspects(a@, b@),
{
    let mut aspects: Vec<NodeModifiedAspect> = Vec::new();
    if !(text_equal(a.name.as_str(), b.name.as_str()) && a.kind == b.kind) {
        aspects.push(NodeModifiedAspect::SemanticContent);
    }
    if !provenance_lists_equal(a.provenance.as_slice(), b.provenance.as_slice()) {
        aspects.push(NodeModifiedAspect::Provenance);
    }
    assert(aspects@ =~= node_aspects(a@, b@));
    aspects
}

/// Added, removed and modified nodes between two snapshot lists.
fn diff_nodes(old: &Vec<NodeSnapshot>, new: &Vec<NodeSnapshot>) -> (r: (
    Vec<NodeChange>,
    Vec<NodeChange>,
    Vec<NodeChange>,
))
    ensures
        node_change_views(r.0@) == node_additions(node_snapshot_views(old@), node_snapshot_views(new@)),
        node_change_views(r.1@) == node_removals(node_snapshot_views(old@), node_snapshot_views(new@)).0,
        node_change_views(r.2@) == node_removals(node_snapshot_views(old@), node_snapshot_views(new@)).1,
{
    let ghost ov = node_snapshot_views(old@);
    let ghost nv = node_snapshot_views(new@);
    let mut removed: Vec<NodeChange> = Vec::new();
    let mut modified: Vec<NodeChange> = Vec::new();
    let mut i: usize = 0;
    while i < old.len()
        invariant
            i <= old@.len(),
            ov == node_snapshot_views(old@),
            nv == node_snapshot_views(new@),
            (node_change_views(removed@), node_change_views(modified@)) == node_removals(ov.take(i as int), nv),
        decreases old@.len() - i,
    {
        let o = &old[i];
        let ghost (r0, m0) = (removed@, modified@);
        assert(ov.take(i + 1).drop_last() =~= ov.take(i as int));
        assert(ov.take(i + 1).last() == o@);
        match find_node_index(new, &o.id) {
            Some(j) => {
                let n = &new[j];
                let aspects = node_aspects_of(o, n);
                if aspects.len() > 0 {
                    modified.push(
                        NodeChange {
                            id: o.id.duplicate(),
                            kind: GraphChangeKind::Modified,
                            node_kind: n.kind,
                            old_state: Some(o.duplicate()),
                            new_state: Some(n.duplicate()),
                            modified_aspects: aspects,
                        },
                    );
                    assert(node_change_views(modified@) =~= node_change_views(m0).push(
                        (o@.0, GraphChangeKind::Modified, n@.2, Some(o@), Some(n@), node_aspects(o@, n@)),
                    ));
                }
            },
            None => {
                removed.push(
                    NodeChange {
                        id: o.id.duplicate(),
                        kind: GraphChangeKind::Removed,
                        node_kind: o.kind,
                        old_state: Some(o.duplicate()),
                        new_state: None,
                        modified_aspects: Vec::new(),
                    },
                );
                assert(node_change_views(removed@) =~= node_change_views(r0).push(
                    (o@.0, GraphChangeKind::Removed, o@.2, Some(o@), None, Seq::empty()),
                ));
            },
        }
        i = i + 1;
    }
    assert(ov.take(i as int) =~= ov);
    let mut added: Vec<NodeChange> = Vec::new();
    let mut k: usize = 0;
    while k < new.len()
        invariant
            k <= new@.len(),
            ov == node_snapshot_views(old@),
            nv == node_snapshot_views(new@),
            node_change_views(added@) == node_additions(ov, nv.take(k as int)),
        decreases new@.len() - k,
    {
        let n = &new[k];
        let ghost a0 = added@;
        assert(nv.take(k + 1).drop_last() =~= nv.take(k as int));
        assert(nv.take(k + 1).last() == n@);
        if find_node_index(old, &n.id).is_none() {
            added.push(
                NodeChange {
                    id: n.id.duplicate(),
                    kind: GraphChangeKind::Added,
                    node_kind: n.kind,
                    old_state: None,
                    new_state: Some(n.duplicate()),
                    modified_aspects: Vec::new(),
                },
            );
            assert(node_change_views(added@) =~= node_change_views(a0).push(
                (n@.0, GraphChangeKind::Added, n@.2, None, Some(n@), Seq::empty()),
            ));
        }
        k = k + 1;
    }
    assert(nv.take(k as int) =~= nv);
    (added, removed, modified)
}

/// Added, removed and modified edges between two snapshot lists.
fn diff_edges(old: &Vec<EdgeSnapshot>, new: &Vec<EdgeSnapshot>) -> (r: (
    Vec<EdgeChange>,
    Vec<EdgeChange>,
    Vec<EdgeChange>,
))
    ensures
        edge_change_views(r.0@) == edge_additions(edge_snapshot_views(old@), edge_snapshot_views(new@)),
        edge_change_views(r.1@) == edge_removals(edge_snapshot_views(old@), edge_snapshot_views(new@)).0,
        edge_change_views(r.2@) == edge_removals(edge_snapshot_views(old@), edge_snapshot_views(new@)).1,
{
    let ghost ov = edge_snapshot_views(old@);
    let ghost nv = edge_snapshot_views(new@);
    let mut removed: Vec<EdgeChange> = Vec::new();
    let mut modified: Vec<EdgeChange> = Vec::new();
    let mut i: usize = 0;
    while i < old.len()
        invariant
            i <= old@.len(),
            ov == edge_snapshot_views(old@),
            nv == edge_snapshot_views(new@),
            (edge_change_views(removed@), edge_change_views(modified@)) == edge_removals(ov.take(i as int), nv),
        decreases old@.len() - i,
    {
        let o = &old[i];
        let ghost (r0, m0) = (removed@, modified@);
        assert(ov.take(i + 1).drop_last() =~= ov.take(i as int));
        assert(ov.take(i + 1).last() == o@);
        match find_edge_index(new, &o.id) {
            Some(j) => {
                let n = &new[j];
                if !provenance_lists_equal(o.provenance.as_slice(), n.provenance.as_slice()) {
                    let mut aspects: Vec<EdgeModifiedAspect> = Vec::new();
                    aspects.push(EdgeModifiedAspect::Provenance);
                    modified.push(
                        EdgeChange {
                            id: o.id.duplicate(),
                            kind: GraphChangeKind::Modified,
                            source: o.source.duplicate(),
                            target: o.target.duplicate(),
                            edge_kind: o.kind,
                            old_state: Some(o.duplicate()),
                            new_state: Some(n.duplicate()),
                            modified_aspects: aspects,
                        },
                    );
                    assert(edge_change_views(modified@) =~= edge_change_views(m0).push(
                        (
                            o@.0,
                            GraphChangeKind::Modified,
                            o@.1,
                            o@.2,
                            o@.3,
                            Some(o@),
                            Some(n@),
                            seq![EdgeModifiedAspect::Provenance],
                        ),
                    ));
                }
            },
            None => {
                removed.push(
                    EdgeChange {
                        id: o.id.duplicate(),
                        kind: GraphChangeKind::Removed,
                        source: o.source.duplicate(),
                        target: o.target.duplicate(),
                        edge_kind: o.kind,
                        old_state: Some(o.duplicate()),
                        new_state: None,
                        modified_aspects: Vec::new(),
                    },
                );
                assert(edge_change_views(removed@) =~= edge_change_views(r0).push(
                    (o@.0, GraphChangeKind::Removed, o@.1, o@.2, o@.3, Some(o@), None, Seq::empty()),
                ));
            },
        }
        i = i + 1;
    }
    assert(ov.take(i as int) =~= ov);
    let mut added: Vec<EdgeChange> = Vec::new();
    let mut k: usize = 0;
    while k < new.len()
        invariant
            k <= new@.len(),
            ov == edge_snapshot_views(old@),
            nv == edge_snapshot_views(new@),
            edge_change_views(added@) == edge_additions(ov, nv.take(k as int)),
        decreases new@.len() - k,
    {
        let n = &new[k];
        let ghost a0 = added@;
        assert(nv.take(k + 1).drop_last() =~= nv.take(k as int));
        assert(nv.take(k + 1).last() == n@);
        if find_edge_index(old, &n.id).is_none() {
            added.push(
                EdgeChange {
                    id: n.id.duplicate(),
                    kind: GraphChangeKind::Added,
                    source: n.source.duplicate(),
                    target: n.target.duplicate(),
                    edge_kind: n.kind,
                    old_state: None,
                    new_state: Some(n.duplicate()),
                    modified_aspects: Vec::new(),
                },
            );
            assert(edge_change_views(added@) =~= edge_change_views(a0).push(
                (n@.0, GraphChangeKind::Added, n@.1, n@.2, n@.3, None, Some(n@), Seq::empty()),
            ));
        }
        k = k + 1;
    }
    assert(nv.take(k as int) =~= nv);
    (added, removed, modified)
}

/// Deterministic directional diff between two semantic graph snapshots:
/// added entities exist only in the new graph, removed ones only in the old
/// graph, and modified ones share a stable identity but differ in content.
#[derive(Debug, Clone, PartialEq, Eq)]
pub struct SemanticGraphDiff {
    added_nodes: Vec<NodeChange>,
    removed_nodes: Vec<NodeChange>,
    modified_nodes: Vec<NodeChange>,
    added_edges: Vec<EdgeChange>,
    removed_edges: Vec<EdgeChange>,
    modified_edges: Vec<EdgeChange>,
}

impl View for SemanticGraphDiff {
    type V = DiffView;

    closed spec fn view(&self) -> DiffView {
        (
            node_change_views(self.added_nodes@),
            node_change_views(self.removed_nodes@),
            node_change_views(self.modified_nodes@),
            edge_change_views(self.added_edges@),
            edge_change_views(self.removed_edges@),
            edge_change_views(self.modified_edges@),
        )
    }
}

impl SemanticGraphDiff {
    /// Compares two graph snapshots in the `old -> new` direction without
    /// changing either.
    pub fn between(old: &SemanticGraph, new: &SemanticGraph) -> (r: Self)
        ensures
            r@ == graph_diff(old@, new@),
    {
        let old_nodes = node_snapshots_of(old);
        let new_nodes = node_snapshots_of(new);
        let old_edges = edge_snapshots_of(old);
        let new_edges = edge_snapshots_of(new);
        let (added_nodes, removed_nodes, modified_nodes) = diff_nodes(&old_nodes, &new_nodes);
        let (added_edges, removed_edges, modified_edges) = diff_edges(&old_edges, &new_edges);
        SemanticGraphDiff { added_nodes, removed_nodes, modified_nodes, added_edges, removed_edges, modified_edges }
    }

    /// Returns nodes that exist only in the new graph.
    pub fn added_nodes(&self) -> (r: &[NodeChange])
        ensures
            node_change_views(r@) == self@.0,
    {
        self.added_nodes.as_slice()
    }

    /// Returns nodes that exist only in the old graph.
    pub fn removed_nodes(&self) -> (r: &[NodeChange])
        ensures
            node_change_views(r@) == self@.1,
    {
        self.removed_nodes.as_slice()
    }

    /// Returns nodes present in both graphs whose content changed.
    pub fn modified_nodes(&self) -> (r: &[NodeChange])
        ensures
            node_change_views(r@) == self@.2,
    {
        self.modified_nodes.as_slice()
    }

    /// Returns edges that exist only in the new graph.
    pub fn added_edges(&self) -> (r: &[EdgeChange])
        ensures
            edge_change_views(r@) == self@.3,
    {
        self.added_edges.as_slice()
    }

    /// Returns edges that exist only in the old graph.
    pub fn removed_edges(&self) -> (r: &[EdgeChange])
        ensures
            edge_change_views(r@) == self@.4,
    {
        self.removed_edges.as_slice()
    }

    /// Returns edges present in both graphs whose provenance changed; a change
    /// of source, target or kind is a removed edge and an added edge.
    pub fn modified_edges(&self) -> (r: &[EdgeChange])
        ensures
            edge_change_views(r@) == self@.5,
    {
        self.modified_edges.as_slice()
    }

    /// Returns the change counters.
    pub fn summary(&self) -> (r: GraphDiffSummary)
        ensures
            r@ == (
                self@.0.len() as usize,
                self@.1.len() as usize,
                self@.2.len() as usize,
                self@.3.len() as usize,
                self@.4.len() as usize,
                self@.5.len() as usize,
            ),
    {
        GraphDiffSummary::new(
            self.added_nodes.len(),
            self.removed_nodes.len(),
            self.modified_nodes.len(),
            self.added_edges.len(),
            self.removed_edges.len(),
            self.modified_edges.len(),
        )
    }

    /// Returns `true` when the diff has no node or edge changes.
    pub fn is_empty(&self) -> (r: bool)
        ensures
            r == (self@.0.len() == 0 && self@.1.len() == 0 && self@.2.len() == 0 && self@.3.len() == 0
                && self@.4.len() == 0 && self@.5.len() == 0),
    {
        self.added_nodes.len() == 0 && self.removed_nodes.len() == 0 && self.modified_nodes.len() == 0
            && self.added_edges.len() == 0 && self.removed_edges.len() == 0 && self.modified_edges.len()
            == 0
    }
}
/// Some node snapshot of `s` has identifier `id`.
pub open spec fn has_node_id(s: Seq<NodeSnapshotView>, id: Seq<char>) -> bool {
    exists|k: int| 0 <= k < s.len() && (#[trigger] s[k]).0 == id
}

/// Some edge snapshot of `s` has identifier `id`.
pub open spec fn has_edge_id(s: Seq<EdgeSnapshotView>, id: Seq<char>) -> bool {
    exists|k: int| 0 <= k < s.len() && (#[trigger] s[k]).0 == id
}

/// Some node change of `c` is about identifier `id`.
pub open spec fn has_node_change(c: Seq<NodeChangeView>, id: Seq<char>) -> bool {
    exists|k: int| 0 <= k < c.len() && (#[trigger] c[k]).0 == id
}

/// Some edge change of `c` is about identifier `id`.
pub open spec fn has_edge_change(c: Seq<EdgeChangeView>, id: Seq<char>) -> bool {
    exists|k: int| 0 <= k < c.len() && (#[trigger] c[k]).0 == id
}

proof fn lemma_find_node_some(s: Seq<NodeSnapshotView>, id: Seq<char>)
    ensures
        (find_node(s, id) is Some) <==> has_node_id(s, id),
    decreases s.len(),
{
    if s.len() > 0 {
        lemma_find_node_some(s.drop_first(), id);
        if has_node_id(s, id) && s[0].0 != id {
            let k = choose|k: int| 0 <= k < s.len() && (#[trigger] s[k]).0 == id;
            assert(s.drop_first()[k - 1] == s[k]);
        }
        if has_node_id(s.drop_first(), id) {
            let k = choose|k: int| 0 <= k < s.drop_first().len() && (#[trigger] s.drop_first()[k]).0 == id;
            assert(s[k + 1] == s.drop_first()[k]);
        }
    }
}

proof fn lemma_find_edge_some(s: Seq<EdgeSnapshotView>, id: Seq<char>)
    ensures
        (find_edge(s, id) is Some) <==> has_edge_id(s, id),
    decreases s.len(),
{
    if s.len() > 0 {
        lemma_find_edge_some(s.drop_first(), id);
        if has_edge_id(s, id) && s[0].0 != id {
            let k = choose|k: int| 0 <= k < s.len() && (#[trigger] s[k]).0 == id;
            assert(s.drop_first()[k - 1] == s[k]);
        }
        if has_edge_id(s.drop_first(), id) {
            let k = choose|k: int| 0 <= k < s.drop_first().len() && (#[trigger] s.drop_first()[k]).0 == id;
            assert(s[k + 1] == s.drop_first()[k]);
        }
    }
}

proof fn lemma_node_push_ids(s: Seq<NodeSnapshotView>, x: NodeSnapshotView, id: Seq<char>)
    ensures
        has_node_id(s.push(x), id) <==> (has_node_id(s, id) || x.0 == id),
{
    let t = s.push(x);
    if has_node_id(s, id) {
        let k = choose|k: int| 0 <= k < s.len() && (#[trigger] s[k]).0 == id;
        assert(t[k] == s[k]);
    }
    if x.0 == id {
        assert(t[s.len() as int] == x);
    }
    if has_node_id(t, id) {
        let k = choose|k: int| 0 <= k < t.len() && (#[trigger] t[k]).0 == id;
        if k < s.len() {
            assert(t[k] == s[k]);
        }
    }
}

proof fn lemma_edge_push_ids(s: Seq<EdgeSnapshotView>, x: EdgeSnapshotView, id: Seq<char>)
    ensures
        has_edge_id(s.push(x), id) <==> (has_edge_id(s, id) || x.0 == id),
{
    let t = s.push(x);
    if has_edge_id(s, id) {
        let k = choose|k: int| 0 <= k < s.len() && (#[trigger] s[k]).0 == id;
        assert(t[k] == s[k]);
    }
    if x.0 == id {
        assert(t[s.len() as int] == x);
    }
    if has_edge_id(t, id) {
        let k = choose|k: int| 0 <= k < t.len() && (#[trigger] t[k]).0 == id;
        if k < s.len() {
            assert(t[k] == s[k]);
        }
    }
}

proof fn lemma_node_change_push(c: Seq<NodeChangeView>, x: NodeChangeView, id: Seq<char>)
    ensures
        has_node_change(c.push(x), id) <==> (has_node_change(c, id) || x.0 == id),
{
    let t = c.push(x);
    if has_node_change(c, id) {
        let k = choose|k: int| 0 <= k < c.len() && (#[trigger] c[k]).0 == id;
        assert(t[k] == c[k]);
    }
    if x.0 == id {
        assert(t[c.len() as int] == x);
    }
    if has_node_change(t, id) {
        let k = choose|k: int| 0 <= k < t.len() && (#[trigger] t[k]).0 == id;
        if k < c.len() {
            assert(t[k] == c[k]);
        }
    }
}

proof fn lemma_edge_change_push(c: Seq<EdgeChangeView>, x: EdgeChangeView, id: Seq<char>)
    ensures
        has_edge_change(c.push(x), id) <==> (has_edge_change(c, id) || x.0 == id),
{
    let t = c.push(x);
    if has_edge_change(c, id) {
        let k = choose|k: int| 0 <= k < c.len() && (#[trigger] c[k]).0 == id;
        assert(t[k] == c[k]);
    }
    if x.0 == id {
        assert(t[c.len() as int] == x);
    }
    if has_edge_change(t, id) {
        let k = choose|k: int| 0 <= k < t.len() && (#[trigger] t[k]).0 == id;
        if k < c.len() {
            assert(t[k] == c[k]);
        }
    }
}

proof fn lemma_node_changes_by_id(old: Seq<NodeSnapshotView>, new: Seq<NodeSnapshotView>, id: Seq<char>)
    ensures
        has_node_change(node_additions(old, new), id) <==> (has_node_id(new, id) && !has_node_id(old, id)),
        has_node_change(node_removals(old, new).0, id) <==> (has_node_id(old, id) && !has_node_id(new, id)),
        has_node_change(node_removals(old, new).1, id) ==> (has_node_id(old, id) && has_node_id(new, id)),
    decreases old.len() + new.len(),
{
    lemma_find_node_some(old, id);
    lemma_find_node_some(new, id);
    if new.len() > 0 {
        let n = new.last();
        lemma_node_changes_by_id(old, new.drop_last(), id);
        lemma_find_node_some(old, n.0);
        assert(new.drop_last().push(n) =~= new);
        lemma_node_push_ids(new.drop_last(), n, id);
        lemma_node_change_push(
            node_additions(old, new.drop_last()),
            (n.0, GraphChangeKind::Added, n.2, None, Some(n), Seq::empty()),
            id,
        );
        if n.0 == id {
            assert(find_node(old, n.0) is None <==> !has_node_id(old, id));
        }
    }
    if old.len() > 0 {
        let o = old.last();
        lemma_node_changes_by_id(old.drop_last(), new, id);
        lemma_find_node_some(new, o.0);
        assert(old.drop_last().push(o) =~= old);
        lemma_node_push_ids(old.drop_last(), o, id);
        let (removed, modified) = node_removals(old.drop_last(), new);
        lemma_node_change_push(removed, (o.0, GraphChangeKind::Removed, o.2, Some(o), None, Seq::empty()), id);
        if let Some(nn) = find_node(new, o.0) {
            lemma_node_change_push(
                modified,
                (o.0, GraphChangeKind::Modified, nn.2, Some(o), Some(nn), node_aspects(o, nn)),
                id,
            );
        }
    }
}

proof fn lemma_edge_changes_by_id(old: Seq<EdgeSnapshotView>, new: Seq<EdgeSnapshotView>, id: Seq<char>)
    ensures
        has_edge_change(edge_additions(old, new), id) <==> (has_edge_id(new, id) && !has_edge_id(old, id)),
        has_edge_change(edge_removals(old, new).0, id) <==> (has_edge_id(old, id) && !has_edge_id(new, id)),
        has_edge_change(edge_removals(old, new).1, id) ==> (has_edge_id(old, id) && has_edge_id(new, id)),
    decreases old.len() + new.len(),
{
    lemma_find_edge_some(old, id);
    lemma_find_edge_some(new, id);
    if new.len() > 0 {
        let n = new.last();
        lemma_edge_changes_by_id(old, new.drop_last(), id);
        lemma_find_edge_some(old, n.0);
        assert(new.drop_last().push(n) =~= new);
        lemma_edge_push_ids(new.drop_last(), n, id);
        lemma_edge_change_push(
            edge_additions(old, new.drop_last()),
            (n.0, GraphChangeKind::Added, n.1, n.2, n.3, None, Some(n), Seq::empty()),
            id,
        );
    }
    if old.len() > 0 {
        let o = old.last();
        lemma_edge_changes_by_id(old.drop_last(), new, id);
        lemma_find_edge_some(new, o.0);
        assert(old.drop_last().push(o) =~= old);
        lemma_edge_push_ids(old.drop_last(), o, id);
        let (removed, modified) = edge_removals(old.drop_last(), new);
        lemma_edge_change_push(
            removed,
            (o.0, GraphChangeKind::Removed, o.1, o.2, o.3, Some(o), None, Seq::empty()),
            id,
        );
        if let Some(nn) = find_edge(new, o.0) {
            lemma_edge_change_push(
                modified,
                (o.0, GraphChangeKind::Modified, o.1, o.2, o.3, Some(o), Some(nn), seq![EdgeModifiedAspect::Provenance]),
                id,
            );
        }
    }
}

/// Which identifiers a graph diff reports: a node or edge is added exactly
/// when only the new graph has its identifier, removed exactly when only
/// the old graph has it, and modified only when both have it.
pub proof fn law_graph_diff_reports_ids_by_presence(old: GraphView, new: GraphView, id: Seq<char>)
    ensures
        ({
            let d = graph_diff(old, new);
            let (on, nn) = (node_snapshots(old), node_snapshots(new));
            let (oe, ne) = (edge_snapshots(old), edge_snapshots(new));
            &&& has_node_change(d.0, id) <==> (has_node_id(nn, id) && !has_node_id(on, id))
            &&& has_node_change(d.1, id) <==> (has_node_id(on, id) && !has_node_id(nn, id))
            &&& has_node_change(d.2, id) ==> (has_node_id(on, id) && has_node_id(nn, id))
            &&& has_edge_change(d.3, id) <==> (has_edge_id(ne, id) && !has_edge_id(oe, id))
            &&& has_edge_change(d.4, id) <==> (has_edge_id(oe, id) && !has_edge_id(ne, id))
            &&& has_edge_change(d.5, id) ==> (has_edge_id(oe, id) && has_edge_id(ne, id))
        }),
{
    lemma_node_changes_by_id(node_snapshots(old), node_snapshots(new), id);
    lemma_edge_changes_by_id(edge_snapshots(old), edge_snapshots(new), id);
}

proof fn lemma_node_modified_aspects(old: Seq<NodeSnapshotView>, new: Seq<NodeSnapshotView>, i: int, nb: NodeSnapshotView)
    requires
        node_ids_distinct(old),
        0 <= i < old.len(),
        find_node(new, old[i].0) == Some(nb),
    ensures
        node_aspects(old[i], nb).len() > 0 ==> node_removals(old, new).1.contains(
            (old[i].0, GraphChangeKind::Modified, nb.2, Some(old[i]), Some(nb), node_aspects(old[i], nb)),
        ),
        forall|k: int|
            0 <= k < node_removals(old, new).1.len() && (#[trigger] node_removals(old, new).1[k]).0
                == old[i].0 ==> node_removals(old, new).1[k].5 == node_aspects(old[i], nb),
        node_aspects(old[i], nb).len() == 0 ==> !has_node_change(node_removals(old, new).1, old[i].0),
    decreases old.len(),
{
    let prev = old.drop_last();
    let o = old.last();
    let (removed, modified) = node_removals(prev, new);
    let m = node_removals(old, new).1;
    assert(node_ids_distinct(prev)) by {
        assert forall|a: int, b: int| 0 <= a < b < prev.len() implies (#[trigger] prev[a]).0 != (#[trigger] prev[b]).0 by {
            assert(prev[a] == old[a] && prev[b] == old[b]);
        }
    }
    if i == old.len() - 1 {
        lemma_node_changes_by_id(prev, new, o.0);
        assert(!has_node_id(prev, o.0)) by {
            if has_node_id(prev, o.0) {
                let k = choose|k: int| 0 <= k < prev.len() && (#[trigger] prev[k]).0 == o.0;
                assert(old[k] == prev[k]);
            }
        }
        assert forall|k: int| 0 <= k < modified.len() implies (#[trigger] modified[k]).0 != o.0 by {
            if modified[k].0 == o.0 {
                assert(has_node_change(modified, o.0));
            }
        }
        if node_aspects(o, nb).len() > 0 {
            assert(m.last() == (o.0, GraphChangeKind::Modified, nb.2, Some(o), Some(nb), node_aspects(o, nb)));
            assert(m[m.len() - 1] == m.last());
        }
        assert forall|k: int| 0 <= k < m.len() && (#[trigger] m[k]).0 == old[i].0 implies m[k].5 == node_aspects(
            old[i],
            nb,
        ) by {
            if k < modified.len() {
                assert(m[k] == modified[k]);
            }
        }
        if node_aspects(o, nb).len() == 0 {
            assert(m == modified);
        }
    } else {
        assert(prev[i] == old[i]);
        lemma_node_modified_aspects(prev, new, i, nb);
        assert(o.0 != old[i].0);
        let c = (old[i].0, GraphChangeKind::Modified, nb.2, Some(old[i]), Some(nb), node_aspects(old[i], nb));
        if node_aspects(old[i], nb).len() > 0 {
            assert(modified.contains(c));
            let k = choose|k: int| 0 <= k < modified.len() && modified[k] == c;
            assert(m[k] == c);
        }
        assert forall|k: int| 0 <= k < m.len() && (#[trigger] m[k]).0 == old[i].0 implies m[k].5 == node_aspects(
            old[i],
            nb,
        ) by {
            if k < modified.len() {
                assert(m[k] == modified[k]);
            }
        }
        if node_aspects(old[i], nb).len() == 0 {
            assert(!has_node_change(m, old[i].0)) by {
                if has_node_change(m, old[i].0) {
                    let k = choose|k: int| 0 <= k < m.len() && (#[trigger] m[k]).0 == old[i].0;
                    if k < modified.len() {
                        assert(m[k] == modified[k]);
                    }
                }
            }
        }
    }
}

/// How a diff reports a node present in both graphs: its semantic content is
/// reported modified exactly when its name or its kind changed, and its
/// provenance exactly when its normalized provenance changed; a node whose
/// name, kind and normalized provenance are unchanged is not reported.
pub proof fn law_node_modifications_follow_what_changed(old: GraphView, new: GraphView, a: NodeView, b: NodeView)
    requires
        graph_wf(old),
        graph_wf(new),
        old.nodes.contains(a),
        new.nodes.contains(b),
        a.id == b.id,
    ensures
        ({
            let m = graph_diff(old, new).2;
            &&& (a.name != b.name || a.kind != b.kind) ==> exists|k: int|
                0 <= k < m.len() && (#[trigger] m[k]).0 == a.id && m[k].5.contains(
                    NodeModifiedAspect::SemanticContent,
                )
            &&& (a.name == b.name && a.kind == b.kind) ==> forall|k: int|
                0 <= k < m.len() && (#[trigger] m[k]).0 == a.id ==> !m[k].5.contains(
                    NodeModifiedAspect::SemanticContent,
                )
            &&& normalize(a.provenance) != normalize(b.provenance) ==> exists|k: int|
                0 <= k < m.len() && (#[trigger] m[k]).0 == a.id && m[k].5.contains(NodeModifiedAspect::Provenance)
            &&& normalize(a.provenance) == normalize(b.provenance) ==> forall|k: int|
                0 <= k < m.len() && (#[trigger] m[k]).0 == a.id ==> !m[k].5.contains(
                    NodeModifiedAspect::Provenance,
                )
            &&& (a.name == b.name && a.kind == b.kind && normalize(a.provenance) == normalize(b.provenance))
                ==> !has_node_change(m, a.id)
        }),
{
    lemma_snapshot_ids_distinct(old);
    lemma_snapshot_ids_distinct(new);
    let on = node_snapshots(old);
    let nn = node_snapshots(new);
    let i = choose|i: int| 0 <= i < old.nodes.len() && old.nodes[i] == a;
    let j = choose|j: int| 0 <= j < new.nodes.len() && new.nodes[j] == b;
    let x = node_snapshot(a);
    let y = node_snapshot(b);
    assert(on[i] == x);
    assert(nn[j] == y);
    lemma_find_node_distinct(nn, j);
    lemma_node_modified_aspects(on, nn, i, y);
    let asp = node_aspects(x, y);
    let m = graph_diff(old, new).2;
    assert(m == node_removals(on, nn).1);
    let c = (x.0, GraphChangeKind::Modified, y.2, Some(x), Some(y), asp);
    let semantic: Seq<NodeModifiedAspect> = if x.1 != y.1 || x.2 != y.2 {
        seq![NodeModifiedAspect::SemanticContent]
    } else {
        Seq::empty()
    };
    if x.3 != y.3 {
        assert(asp == semantic.push(NodeModifiedAspect::Provenance));
        assert(asp[asp.len() - 1] == NodeModifiedAspect::Provenance);
        assert(asp.contains(NodeModifiedAspect::Provenance));
    } else {
        assert(asp == semantic);
        if semantic.len() > 0 {
            assert(semantic[0] == NodeModifiedAspect::SemanticContent);
        }
        assert(!asp.contains(NodeModifiedAspect::Provenance));
    }
    if x.1 != y.1 || x.2 != y.2 {
        assert(asp[0] == NodeModifiedAspect::SemanticContent);
        assert(asp.contains(NodeModifiedAspect::SemanticContent));
    } else {
        if x.3 != y.3 {
            assert(asp =~= seq![NodeModifiedAspect::Provenance]);
        }
        assert(!asp.contains(NodeModifiedAspect::SemanticContent));
    }
    if asp.len() > 0 {
        assert(m.contains(c));
    } else {
        assert(!has_node_change(m, a.id));
    }
}

} // verus!
