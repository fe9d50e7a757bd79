//! The in-memory semantic graph: nodes ordered by identifier and directed
//! edges ordered by source, target and kind, every edge joining two nodes.

use vstd::prelude::*;

use crate::entity::{EntityId, EntityName};
use crate::graph::access_right::AccessRight;
use crate::graph::diff::{graph_diff, SemanticGraphDiff};
use crate::graph::semantic_query::SemanticGraphQuery;
use crate::graph::edge::{
    edge_lt, lemma_edge_lt_irreflexive, lemma_edge_lt_total, lemma_edge_lt_transitive, same_edge,
    EdgeView, GraphEdge,
};
use crate::graph::kind::{EdgeKind, NodeKind};
use crate::graph::measure::Measure;
use crate::graph::node::{GraphNode, NodeView};
use crate::graph::provenance::{duplicate_provenance, provenance_views, Provenance};
use crate::graph::query::rank;
use crate::text::{
    lemma_lex_irreflexive, lemma_lex_total, lemma_lex_transitive, lex_lt, push_str, text_equal,
    text_less,
};

verus! {

/// Abstract value of a graph: its nodes and its edges, each in order.
pub struct GraphView {
    pub nodes: Seq<NodeView>,
    pub edges: Seq<EdgeView>,
}

/// Node identifiers strictly increase.
pub open spec fn nodes_sorted(n: Seq<NodeView>) -> bool {
    forall|i: int, j: int| 0 <= i < j < n.len() ==> lex_lt(#[trigger] n[i].id, #[trigger] n[j].id)
}

/// Edges strictly increase in edge order.
pub open spec fn edges_sorted(e: Seq<EdgeView>) -> bool {
    forall|i: int, j: int| 0 <= i < j < e.len() ==> edge_lt(#[trigger] e[i], #[trigger] e[j])
}

/// Some node has identifier `id`.
pub open spec fn has_node(n: Seq<NodeView>, id: Seq<char>) -> bool {
    exists|i: int| 0 <= i < n.len() && (#[trigger] n[i]).id == id
}

/// Every edge joins two nodes of the graph.
pub open spec fn edges_connected(g: GraphView) -> bool {
    forall|k: int|
        0 <= k < g.edges.len() ==> has_node(g.nodes, (#[trigger] g.edges[k]).source) && has_node(
            g.nodes,
            g.edges[k].target,
        )
}

/// The graph invariant.
pub open spec fn graph_wf(g: GraphView) -> bool {
    &&& nodes_sorted(g.nodes)
    &&& edges_sorted(g.edges)
    &&& edges_connected(g)
}

/// First position of `n` from `i` on whose identifier does not sort before `id`.
pub open spec fn node_pos(n: Seq<NodeView>, id: Seq<char>, i: int) -> int
    decreases n.len() - i,
{
    if 0 <= i < n.len() && lex_lt(n[i].id, id) {
        node_pos(n, id, i + 1)
    } else {
        i
    }
}

/// The node with identifier `id`, if any.
pub open spec fn lookup(n: Seq<NodeView>, id: Seq<char>) -> Option<NodeView> {
    let p = node_pos(n, id, 0);
    if 0 <= p < n.len() && n[p].id == id {
        Some(n[p])
    } else {
        None
    }
}

/// The nodes once `v` is inserted, replacing a node with the same identifier.
pub open spec fn insert_node_into(n: Seq<NodeView>, v: NodeView) -> Seq<NodeView> {
    let p = node_pos(n, v.id, 0);
    if 0 <= p < n.len() && n[p].id == v.id {
        n.update(p, v)
    } else {
        n.insert(p, v)
    }
}

/// First position of `e` from `i` on that does not sort before `x`.
pub open spec fn edge_pos(e: Seq<EdgeView>, x: EdgeView, i: int) -> int
    decreases e.len() - i,
{
    if 0 <= i < e.len() && edge_lt(e[i], x) {
        edge_pos(e, x, i + 1)
    } else {
        i
    }
}

/// The edges once `x` is inserted, and whether it was new; an edge with the
/// same identity is kept as it is.
pub open spec fn insert_edge_into(e: Seq<EdgeView>, x: EdgeView) -> (Seq<EdgeView>, bool) {
    let p = edge_pos(e, x, 0);
    if 0 <= p < e.len() && same_edge(e[p], x) {
        (e, false)
    } else {
        (e.insert(p, x), true)
    }
}

/// Outcome of inserting edge `x`: the identifier of a missing endpoint
/// (source first), or the new graph and whether the edge was new.
pub open spec fn insert_edge_outcome(g: GraphView, x: EdgeView) -> Result<(GraphView, bool), Seq<char>> {
    if lookup(g.nodes, x.source) is None {
        Err(x.source)
    } else if lookup(g.nodes, x.target) is None {
        Err(x.target)
    } else {
        let r = insert_edge_into(g.edges, x);
        Ok((GraphView { nodes: g.nodes, edges: r.0 }, r.1))
    }
}

/// The search for `id` passes only identifiers that sort before it and stops
/// at the first that does not.
pub proof fn lemma_node_pos(n: Seq<NodeView>, id: Seq<char>, i: int)
    requires
        0 <= i <= n.len(),
        forall|k: int| 0 <= k < i ==> lex_lt(#[trigger] n[k].id, id),
    ensures
        i <= node_pos(n, id, i) <= n.len(),
        forall|k: int| 0 <= k < node_pos(n, id, i) ==> lex_lt(#[trigger] n[k].id, id),
        node_pos(n, id, i) < n.len() ==> !lex_lt(n[node_pos(n, id, i)].id, id),
    decreases n.len() - i,
{
    if i < n.len() && lex_lt(n[i].id, id) {
        lemma_node_pos(n, id, i + 1);
    }
}

/// The search for `x` passes only edges that sort before it and stops at the
/// first that does not.
pub proof fn lemma_edge_pos(e: Seq<EdgeView>, x: EdgeView, i: int)
    requires
        0 <= i <= e.len(),
        forall|k: int| 0 <= k < i ==> edge_lt(#[trigger] e[k], x),
    ensures
        i <= edge_pos(e, x, i) <= e.len(),
        forall|k: int| 0 <= k < edge_pos(e, x, i) ==> edge_lt(#[trigger] e[k], x),
        edge_pos(e, x, i) < e.len() ==> !edge_lt(e[edge_pos(e, x, i)], x),
    decreases e.len() - i,
{
    if i < e.len() && edge_lt(e[i], x) {
        lemma_edge_pos(e, x, i + 1);
    }
}

/// In ordered nodes, `lookup` finds exactly the node that has the identifier.
pub proof fn lemma_lookup(n: Seq<NodeView>, id: Seq<char>)
    requires
        nodes_sorted(n),
    ensures
        lookup(n, id) is Some <==> has_node(n, id),
        lookup(n, id) matches Some(v) ==> v.id == id,
        forall|i: int| 0 <= i < n.len() && (#[trigger] n[i]).id == id ==> lookup(n, id) == Some(n[i]),
{
    lemma_node_pos(n, id, 0);
    let p = node_pos(n, id, 0);
    assert forall|i: int| 0 <= i < n.len() && (#[trigger] n[i]).id == id implies lookup(n, id) == Some(n[i]) by {
        lemma_lex_irreflexive(id, 0);
        if i < p {
            assert(lex_lt(n[i].id, id));
        } else if i > p {
            assert(lex_lt(n[p].id, n[i].id));
            lemma_lex_total(n[p].id, id, 0);
            assert(n[p].id.skip(0) =~= n[p].id);
            assert(id.skip(0) =~= id);
        }
    }
}

/// Inserting a node keeps identifiers ordered and keeps every identifier that
/// was present; afterwards a lookup of the inserted identifier gives the
/// inserted node, and a lookup of any other identifier gives what it gave
/// before.
pub proof fn lemma_insert_node_into(n: Seq<NodeView>, v: NodeView)
    requires
        nodes_sorted(n),
    ensures
        nodes_sorted(insert_node_into(n, v)),
        forall|id: Seq<char>| has_node(n, id) ==> #[trigger] has_node(insert_node_into(n, v), id),
        has_node(insert_node_into(n, v), v.id),
        lookup(insert_node_into(n, v), v.id) == Some(v),
        forall|id: Seq<char>| id != v.id ==> #[trigger] lookup(insert_node_into(n, v), id) == lookup(n, id),
{
    lemma_node_pos(n, v.id, 0);
    let p = node_pos(n, v.id, 0);
    let m = insert_node_into(n, v);
    if 0 <= p < n.len() && n[p].id == v.id {
        assert(m == n.update(p, v));
        assert forall|i: int, j: int| 0 <= i < j < m.len() implies lex_lt(#[trigger] m[i].id, #[trigger] m[j].id) by {
            assert(m[i].id == n[i].id && m[j].id == n[j].id);
        }
        assert forall|id: Seq<char>| has_node(n, id) implies #[trigger] has_node(m, id) by {
            let i = choose|i: int| 0 <= i < n.len() && (#[trigger] n[i]).id == id;
            assert(m[i].id == n[i].id);
        }
        assert(m[p] == v);
    } else {
        assert(m == n.insert(p, v));
        if p < n.len() {
            lemma_lex_total(n[p].id, v.id, 0);
            assert(n[p].id.skip(0) =~= n[p].id);
            assert(v.id.skip(0) =~= v.id);
        }
        assert forall|i: int, j: int| 0 <= i < j < m.len() implies lex_lt(#[trigger] m[i].id, #[trigger] m[j].id) by {
            if j < p {
                assert(m[i] == n[i] && m[j] == n[j]);
            } else if j == p {
                assert(m[i] == n[i]);
            } else if i == p {
                assert(m[j] == n[j - 1]);
                if j - 1 > p {
                    lemma_lex_transitive(v.id, n[p].id, n[j - 1].id, 0);
                }
            } else if i < p {
                assert(m[i] == n[i] && m[j] == n[j - 1]);
                if p < n.len() {
                    lemma_lex_transitive(n[i].id, v.id, n[p].id, 0);
                    if j - 1 > p {
                        lemma_lex_transitive(n[i].id, n[p].id, n[j - 1].id, 0);
                    }
                }
            } else {
                assert(m[i] == n[i - 1] && m[j] == n[j - 1]);
            }
        }
        assert forall|id: Seq<char>| has_node(n, id) implies #[trigger] has_node(m, id) by {
            let i = choose|i: int| 0 <= i < n.len() && (#[trigger] n[i]).id == id;
            if i < p {
                assert(m[i] == n[i]);
            } else {
                assert(m[i + 1] == n[i]);
            }
        }
        assert(m[p] == v);
    }
    lemma_lookup(m, v.id);
    assert forall|id: Seq<char>| id != v.id implies #[trigger] lookup(m, id) == lookup(n, id) by {
        lemma_lookup(m, id);
        lemma_lookup(n, id);
        if has_node(n, id) {
            let i = choose|i: int| 0 <= i < n.len() && (#[trigger] n[i]).id == id;
            if 0 <= p < n.len() && n[p].id == v.id {
                assert(m[i] == n[i]);
            } else if i < p {
                assert(m[i] == n[i]);
            } else {
                assert(m[i + 1] == n[i]);
            }
        }
        if has_node(m, id) {
            let i = choose|i: int| 0 <= i < m.len() && (#[trigger] m[i]).id == id;
            if 0 <= p < n.len() && n[p].id == v.id {
                assert(m[i] == n[i]);
            } else if i < p {
                assert(m[i] == n[i]);
            } else if i > p {
                assert(m[i] == n[i - 1]);
            }
        }
    }
}

/// Inserting an edge keeps edges ordered, and every edge afterwards is the
/// inserted one or one that was there before.
pub proof fn lemma_insert_edge_into(e: Seq<EdgeView>, x: EdgeView)
    requires
        edges_sorted(e),
    ensures
        edges_sorted(insert_edge_into(e, x).0),
        forall|k: int|
            0 <= k < insert_edge_into(e, x).0.len() ==> (#[trigger] insert_edge_into(e, x).0[k]
                == x || exists|j: int| 0 <= j < e.len() && e[j] == insert_edge_into(e, x).0[k]),
{
    lemma_edge_pos(e, x, 0);
    let p = edge_pos(e, x, 0);
    let m = insert_edge_into(e, x).0;
    if !(0 <= p < e.len() && same_edge(e[p], x)) {
        assert(m == e.insert(p, x));
        if p < e.len() {
            lemma_edge_lt_total(e[p], x);
        }
        assert forall|i: int, j: int| 0 <= i < j < m.len() implies edge_lt(#[trigger] m[i], #[trigger] m[j]) by {
            if j < p {
                assert(m[i] == e[i] && m[j] == e[j]);
            } else if j == p {
                assert(m[i] == e[i]);
            } else if i == p {
                assert(m[j] == e[j - 1]);
                if j - 1 > p {
                    lemma_edge_lt_transitive(x, e[p], e[j - 1]);
                }
            } else if i < p {
                assert(m[i] == e[i] && m[j] == e[j - 1]);
                if p < e.len() {
                    lemma_edge_lt_transitive(e[i], x, e[p]);
                    if j - 1 > p {
                        lemma_edge_lt_transitive(e[i], e[p], e[j - 1]);
                    }
                }
            } else {
                assert(m[i] == e[i - 1] && m[j] == e[j - 1]);
            }
        }
        assert forall|k: int| 0 <= k < m.len() implies (#[trigger] m[k] == x || exists|j: int|
            0 <= j < e.len() && e[j] == m[k]) by {
            if k < p {
                assert(e[k] == m[k]);
            } else if k > p {
                assert(e[k - 1] == m[k]);
            }
        }
    } else {
        assert forall|k: int| 0 <= k < m.len() implies (#[trigger] m[k] == x || exists|j: int|
            0 <= j < e.len() && e[j] == m[k]) by {
            assert(e[k] == m[k]);
        }
    }
}


/// Order of nodes by identifier.
pub open spec fn node_lt(a: NodeView, b: NodeView) -> bool {
    lex_lt(a.id, b.id)
}

/// The order of nodes by identifier is a strict order.
proof fn lemma_node_lt_strict()
    ensures
        forall|x: NodeView, y: NodeView, z: NodeView| #[trigger] node_lt(x, y) && #[trigger] node_lt(y, z) ==> node_lt(
            x,
            z,
        ),
        forall|x: NodeView| !(#[trigger] node_lt(x, x)),
{
    assert forall|x: NodeView, y: NodeView, z: NodeView| #[trigger] node_lt(x, y) && #[trigger] node_lt(
        y,
        z,
    ) implies node_lt(x, z) by {
        crate::text::lemma_lex_order(x.id, y.id, z.id);
    }
    assert forall|x: NodeView| !(#[trigger] node_lt(x, x)) by {
        crate::text::lemma_lex_order(x.id, x.id, x.id);
    }
}

/// After an insertion the nodes are the inserted node and the nodes that had
/// another identifier.
pub proof fn lemma_insert_node_members(n: Seq<NodeView>, v: NodeView)
    requires
        nodes_sorted(n),
    ensures
        forall|x: NodeView|
            #[trigger] insert_node_into(n, v).contains(x) <==> (x == v || (n.contains(x) && x.id != v.id)),
{
    lemma_node_pos(n, v.id, 0);
    lemma_lookup(n, v.id);
    let p = node_pos(n, v.id, 0);
    let m = insert_node_into(n, v);
    assert forall|x: NodeView| #[trigger] m.contains(x) <==> (x == v || (n.contains(x) && x.id != v.id)) by {
        if 0 <= p < n.len() && n[p].id == v.id {
            assert(m == n.update(p, v));
            if m.contains(x) {
                let k = choose|k: int| 0 <= k < m.len() && m[k] == x;
                if k != p {
                    assert(n[k] == x);
                    crate::text::lemma_lex_order(n[k].id, n[p].id, n[p].id);
                    assert(n.contains(x));
                }
            }
            if n.contains(x) && x.id != v.id {
                let k = choose|k: int| 0 <= k < n.len() && n[k] == x;
                assert(k != p);
                assert(m[k] == x);
            }
            if x == v {
                assert(m[p] == v);
            }
        } else {
            assert(m == n.insert(p, v));
            if m.contains(x) {
                let k = choose|k: int| 0 <= k < m.len() && m[k] == x;
                if k < p {
                    assert(n[k] == x);
                    assert(n.contains(x));
                } else if k > p {
                    assert(n[k - 1] == x);
                    assert(n.contains(x));
                }
            }
            if n.contains(x) {
                let k = choose|k: int| 0 <= k < n.len() && n[k] == x;
                if x.id == v.id {
                    assert(has_node(n, v.id));
                }
                if k < p {
                    assert(m[k] == x);
                } else {
                    assert(m[k + 1] == x);
                }
            }
            if x == v {
                assert(m[p] == v);
            }
        }
    }
}

/// Inserting two nodes with different identifiers gives the same nodes in
/// either order.
pub proof fn lemma_insert_nodes_commute(n: Seq<NodeView>, a: NodeView, b: NodeView)
    requires
        nodes_sorted(n),
        a.id != b.id,
    ensures
        insert_node_into(insert_node_into(n, a), b) == insert_node_into(insert_node_into(n, b), a),
{
    lemma_insert_node_into(n, a);
    lemma_insert_node_into(n, b);
    let na = insert_node_into(n, a);
    let nb = insert_node_into(n, b);
    lemma_insert_node_into(na, b);
    lemma_insert_node_into(nb, a);
    let l = insert_node_into(na, b);
    let r = insert_node_into(nb, a);
    lemma_insert_node_members(n, a);
    lemma_insert_node_members(n, b);
    lemma_insert_node_members(na, b);
    lemma_insert_node_members(nb, a);
    assert forall|x: NodeView| l.contains(x) <==> r.contains(x) by {
        assert(l.contains(x) <==> (x == b || (na.contains(x) && x.id != b.id)));
        assert(r.contains(x) <==> (x == a || (nb.contains(x) && x.id != a.id)));
    }
    lemma_node_lt_strict();
    let lt = |x: NodeView, y: NodeView| node_lt(x, y);
    assert(crate::ordered::strictly_sorted(l, lt));
    assert(crate::ordered::strictly_sorted(r, lt));
    crate::ordered::lemma_strictly_sorted_equal(l, r, lt);
}

/// Outcome of attaching `node` under the node `parent`: the identifier of a
/// missing owner, or the graph with the node inserted (replacing one with
/// the same identifier) and a `Contains` edge from the owner to it.
pub open spec fn attach_outcome(g: GraphView, node: NodeView, parent: Seq<char>) -> Result<GraphView, Seq<char>> {
    if lookup(g.nodes, parent) is None {
        Err(parent)
    } else {
        Ok(
            GraphView {
                nodes: insert_node_into(g.nodes, node),
                edges: insert_edge_into(
                    g.edges,
                    EdgeView {
                        source: parent,
                        target: node.id,
                        kind: EdgeKind::Contains,
                        provenance: node.provenance,
                    },
                ).0,
            },
        )
    }
}

/// Nodes of `n` whose kind is `kind`, in order.
pub open spec fn nodes_of_kind(n: Seq<NodeView>, kind: NodeKind) -> Seq<NodeView>
    decreases n.len(),
{
    if n.len() == 0 {
        Seq::empty()
    } else {
        let rest = nodes_of_kind(n.drop_last(), kind);
        if n.last().kind == kind {
            rest.push(n.last())
        } else {
            rest
        }
    }
}

/// Whether `x` meets every constraint that is given.
pub open spec fn edge_matches(
    x: EdgeView,
    source: Option<Seq<char>>,
    target: Option<Seq<char>>,
    kind: Option<EdgeKind>,
) -> bool {
    &&& (source matches Some(s) ==> x.source == s)
    &&& (target matches Some(t) ==> x.target == t)
    &&& (kind matches Some(k) ==> x.kind == k)
}

/// Edges of `e` that meet every given constraint, in order.
pub open spec fn select_edges(
    e: Seq<EdgeView>,
    source: Option<Seq<char>>,
    target: Option<Seq<char>>,
    kind: Option<EdgeKind>,
) -> Seq<EdgeView>
    decreases e.len(),
{
    if e.len() == 0 {
        Seq::empty()
    } else {
        let rest = select_edges(e.drop_last(), source, target, kind);
        if edge_matches(e.last(), source, target, kind) {
            rest.push(e.last())
        } else {
            rest
        }
    }
}

/// Views of a sequence of node references.
pub open spec fn node_ref_views(s: Seq<&GraphNode>) -> Seq<NodeView> {
    s.map_values(|n: &GraphNode| n@)
}

/// Views of a sequence of edge references.
pub open spec fn edge_ref_views(s: Seq<&GraphEdge>) -> Seq<EdgeView> {
    s.map_values(|e: &GraphEdge| e@)
}

/// Text of an optional identifier.
pub open spec fn id_option(id: Option<&EntityId>) -> Option<Seq<char>> {
    match id {
        Some(i) => Some(i@),
        None => None,
    }
}

/// In ordered edges, an edge with the identity of `y` at position `q` is
/// where the search for `y` stops.
pub proof fn lemma_edge_pos_found(e: Seq<EdgeView>, y: EdgeView, q: int)
    requires
        edges_sorted(e),
        0 <= q < e.len(),
        same_edge(e[q], y),
    ensures
        edge_pos(e, y, 0) == q,
{
    lemma_edge_pos(e, y, 0);
    let p = edge_pos(e, y, 0);
    lemma_edge_lt_irreflexive(y);
    if q < p {
        assert(edge_lt(e[q], y));
    } else if p < q {
        assert(edge_lt(e[p], e[q]));
    }
}

/// Once an edge has been inserted, the graph holds an edge with its identity,
/// and inserting any edge with that identity again (whatever its provenance)
/// succeeds, reports the edge as not new and leaves the graph unchanged.
pub proof fn lemma_insert_edge_again(g: GraphView, x: EdgeView, y: EdgeView)
    requires
        graph_wf(g),
        insert_edge_outcome(g, x) is Ok,
        same_edge(x, y),
    ensures
        ({
            let g1 = insert_edge_outcome(g, x)->Ok_0.0;
            &&& exists|k: int| 0 <= k < g1.edges.len() && same_edge(#[trigger] g1.edges[k], x)
            &&& insert_edge_outcome(g1, y) == Ok::<(GraphView, bool), Seq<char>>((g1, false))
        }),
{
    let e = g.edges;
    let p = edge_pos(e, x, 0);
    lemma_edge_pos(e, x, 0);
    lemma_insert_edge_into(e, x);
    let e1 = insert_edge_into(e, x).0;
    let g1 = insert_edge_outcome(g, x)->Ok_0.0;
    assert(g1.edges == e1);
    assert(g1.nodes == g.nodes);
    assert(0 <= p < e1.len() && same_edge(e1[p], x));
    lemma_edge_pos_found(e1, y, p);
    assert(insert_edge_into(e1, y) == (e1, false));
}

/// Views of a sequence of nodes.
pub open spec fn node_views(s: Seq<GraphNode>) -> Seq<NodeView> {
    s.map_values(|n: GraphNode| n@)
}

/// Views of a sequence of edges.
pub open spec fn edge_views(s: Seq<GraphEdge>) -> Seq<EdgeView> {
    s.map_values(|e: GraphEdge| e@)
}

/// In-memory semantic graph. Nodes are kept in identifier order, edges in
/// edge order, and every edge joins two nodes of the graph.
#[derive(Debug)]
pub struct SemanticGraph {
    nodes: Vec<GraphNode>,
    edges: Vec<GraphEdge>,
}

impl View for SemanticGraph {
    type V = GraphView;

    closed spec fn view(&self) -> GraphView {
        GraphView { nodes: node_views(self.nodes@), edges: edge_views(self.edges@) }
    }
}

/// Semantic graph operation error.
#[derive(Debug, Clone, PartialEq, Eq)]
pub enum GraphError {
    /// An edge references a node absent from the graph.
    MissingNode(EntityId),
}

impl GraphError {
    /// Returns the human-readable error text.
    pub fn message(&self) -> (r: String)
        ensures
            r@ == "semantic graph node is missing: "@ + match self {
                GraphError::MissingNode(id) => id@,
            },
    {
        let mut out = String::new();
        match self {
            GraphError::MissingNode(id) => {
                push_str(&mut out, "semantic graph node is missing: ");
                push_str(&mut out, id.as_str());
            },
        }
        out
    }
}

/// Returns `lex_lt(a@, b@)`.
fn id_less(a: &EntityId, b: &EntityId) -> (r: bool)
    ensures
        r == lex_lt(a@, b@),
{
    text_less(a.as_str(), b.as_str())
}

/// Returns whether two identifiers hold the same text.
fn id_equal(a: &EntityId, b: &EntityId) -> (r: bool)
    ensures
        r == (a@ == b@),
{
    text_equal(a.as_str(), b.as_str())
}

/// Returns `edge_lt(a@, b@)`.
fn edge_less(a: &GraphEdge, b: &GraphEdge) -> (r: bool)
    ensures
        r == edge_lt(a@, b@),
{
    if id_less(a.source(), b.source()) {
        true
    } else if !id_equal(a.source(), b.source()) {
        false
    } else if id_less(a.target(), b.target()) {
        true
    } else if !id_equal(a.target(), b.target()) {
        false
    } else {
        rank(a.kind()) < rank(b.kind())
    }
}

/// Returns `same_edge(a@, b@)`.
fn edge_same(a: &GraphEdge, b: &GraphEdge) -> (r: bool)
    ensures
        r == same_edge(a@, b@),
{
    id_equal(a.source(), b.source()) && id_equal(a.target(), b.target()) && a.kind() == b.kind()
}

/// Returns `node_pos` of `id` in `nodes`.
fn node_position(nodes: &Vec<GraphNode>, id: &EntityId) -> (p: usize)
    ensures
        p as int == node_pos(node_views(nodes@), id@, 0),
        p <= nodes@.len(),
{
    let ghost v = node_views(nodes@);
    let mut i: usize = 0;
    while i < nodes.len() && id_less(nodes[i].id(), id)
        invariant
            i <= nodes@.len(),
            v == node_views(nodes@),
            node_pos(v, id@, i as int) == node_pos(v, id@, 0),
        decreases nodes@.len() - i,
    {
        i = i + 1;
    }
    i
}

/// Returns `edge_pos` of `x` in `edges`.
fn edge_position(edges: &Vec<GraphEdge>, x: &GraphEdge) -> (p: usize)
    ensures
        p as int == edge_pos(edge_views(edges@), x@, 0),
        p <= edges@.len(),
{
    let ghost v = edge_views(edges@);
    let mut i: usize = 0;
    while i < edges.len() && edge_less(&edges[i], x)
        invariant
            i <= edges@.len(),
            v == edge_views(edges@),
            edge_pos(v, x@, i as int) == edge_pos(v, x@, 0),
        decreases edges@.len() - i,
    {
        i = i + 1;
    }
    i
}

impl SemanticGraph {
    /// The graph invariant holds of every graph.
    #[verifier::type_invariant]
    pub(crate) open spec fn inv(self) -> bool {
        graph_wf(self@)
    }

    /// Creates an empty semantic graph.
    pub fn new() -> (r: Self)
        ensures
            r@ == (GraphView { nodes: Seq::empty(), edges: Seq::empty() }),
    {
        let r = SemanticGraph { nodes: Vec::new(), edges: Vec::new() };
        assert(r@.nodes =~= Seq::<NodeView>::empty());
        assert(r@.edges =~= Seq::<EdgeView>::empty());
        r
    }

    /// Returns whether a node with identifier `id` exists.
    fn contains_node(&self, id: &EntityId) -> (r: bool)
        ensures
            r == (lookup(self@.nodes, id@) is Some),
    {
        let p = node_position(&self.nodes, id);
        p < self.nodes.len() && id_equal(self.nodes[p].id(), id)
    }

    /// Inserts or replaces a node and returns the node it replaced.
    pub fn insert_node(&mut self, node: GraphNode) -> (r: Option<GraphNode>)
        ensures
            final(self)@ == (GraphView {
                nodes: insert_node_into(old(self)@.nodes, node@),
                edges: old(self)@.edges,
            }),
            graph_wf(final(self)@),
            match r {
                Some(previous) => lookup(old(self)@.nodes, node@.id) == Some(previous@),
                None => lookup(old(self)@.nodes, node@.id) is None,
            },
    {
        proof {
            use_type_invariant(&*self);
        }
        let ghost g = self@;
        let mut taken = SemanticGraph::new();
        std::mem::swap(self, &mut taken);
        let SemanticGraph { mut nodes, edges } = taken;
        let ghost before = nodes@;
        let ghost v = node@;
        let p = node_position(&nodes, node.id());
        let previous = if p < nodes.len() && id_equal(nodes[p].id(), node.id()) {
            let prev = nodes.remove(p);
            nodes.insert(p, node);
            assert(nodes@ =~= before.update(p as int, nodes@[p as int]));
            assert(node_views(nodes@) =~= node_views(before).update(p as int, v));
            Some(prev)
        } else {
            nodes.insert(p, node);
            assert(node_views(nodes@) =~= node_views(before).insert(p as int, v));
            None
        };
        proof {
            lemma_insert_node_into(g.nodes, v);
            let m = insert_node_into(g.nodes, v);
            assert(node_views(nodes@) == m);
            assert forall|k: int| 0 <= k < g.edges.len() implies has_node(m, (#[trigger] g.edges[k]).source)
                && has_node(m, g.edges[k].target) by {
                assert(has_node(g.nodes, g.edges[k].source));
                assert(has_node(g.nodes, g.edges[k].target));
            }
        }
        *self = SemanticGraph { nodes, edges };
        previous
    }

    /// Inserts or replaces a node carrying one provenance record.
    pub fn insert_node_with_provenance(
        &mut self,
        id: EntityId,
        name: EntityName,
        kind: NodeKind,
        provenance: Provenance,
    ) -> (r: Option<GraphNode>)
        ensures
            final(self)@ == (GraphView {
                nodes: insert_node_into(
                    old(self)@.nodes,
                    NodeView { id: id@, name: name@, kind, provenance: seq![provenance@] },
                ),
                edges: old(self)@.edges,
            }),
            graph_wf(final(self)@),
            match r {
                Some(previous) => lookup(old(self)@.nodes, id@) == Some(previous@),
                None => lookup(old(self)@.nodes, id@) is None,
            },
    {
        let ghost pv = provenance@;
        let records = vec![provenance];
        assert(provenance_views(records@) =~= seq![pv]);
        self.insert_node(GraphNode::new_with_provenance(id, name, kind, records))
    }

    /// Inserts an edge once both endpoints are in the graph. An edge with the
    /// same source, target and kind is kept as it is, and `Ok(false)` tells so.
    pub fn insert_edge(&mut self, edge: GraphEdge) -> (r: Result<bool, GraphError>)
        ensures
            graph_wf(final(self)@),
            match r {
                Ok(added) => insert_edge_outcome(old(self)@, edge@) == Ok::<(GraphView, bool), Seq<char>>(
                    (final(self)@, added),
                ),
                Err(GraphError::MissingNode(id)) => insert_edge_outcome(old(self)@, edge@) == Err::<
                    (GraphView, bool),
                    Seq<char>,
                >(id@) && final(self)@ == old(self)@,
            },
    {
        proof {
            use_type_invariant(&*self);
        }
        if !self.contains_node(edge.source()) {
            return Err(GraphError::MissingNode(edge.source().duplicate()));
        }
        if !self.contains_node(edge.target()) {
            return Err(GraphError::MissingNode(edge.target().duplicate()));
        }
        let ghost g = self@;
        let ghost x = edge@;
        let mut taken = SemanticGraph::new();
        std::mem::swap(self, &mut taken);
        let SemanticGraph { nodes, mut edges } = taken;
        let ghost before = edges@;
        let p = edge_position(&edges, &edge);
        proof {
            lemma_insert_edge_into(g.edges, x);
            lemma_lookup(g.nodes, x.source);
            lemma_lookup(g.nodes, x.target);
        }
        let added = if p < edges.len() && edge_same(&edges[p], &edge) {
            false
        } else {
            edges.insert(p, edge);
            assert(edge_views(edges@) =~= edge_views(before).insert(p as int, x));
            true
        };
        proof {
            let m = insert_edge_into(g.edges, x).0;
            assert(edge_views(edges@) == m);
            assert forall|k: int| 0 <= k < m.len() implies has_node(g.nodes, (#[trigger] m[k]).source)
                && has_node(g.nodes, m[k].target) by {
                if m[k] != x {
                    let j = choose|j: int| 0 <= j < g.edges.len() && g.edges[j] == m[k];
                    assert(has_node(g.nodes, g.edges[j].source));
                }
            }
        }
        *self = SemanticGraph { nodes, edges };
        Ok(added)
    }

    /// Inserts an edge carrying one provenance record once both endpoints are
    /// in the graph.
    pub fn insert_edge_with_provenance(
        &mut self,
        source: EntityId,
        target: EntityId,
        kind: EdgeKind,
        provenance: Provenance,
    ) -> (r: Result<bool, GraphError>)
        ensures
            graph_wf(final(self)@),
            ({
                let x = EdgeView { source: source@, target: target@, kind, provenance: seq![provenance@] };
                match r {
                    Ok(added) => insert_edge_outcome(old(self)@, x) == Ok::<(GraphView, bool), Seq<char>>(
                        (final(self)@, added),
                    ),
                    Err(GraphError::MissingNode(id)) => insert_edge_outcome(old(self)@, x) == Err::<
                        (GraphView, bool),
                        Seq<char>,
                    >(id@) && final(self)@ == old(self)@,
                }
            }),
    {
        let ghost pv = provenance@;
        let records = vec![provenance];
        assert(provenance_views(records@) =~= seq![pv]);
        self.insert_edge(GraphEdge::new_with_provenance(source, target, kind, records))
    }

    /// Inserts a node under the existing node `parent` and links it from
    /// there with a `Contains` edge carrying the node's provenance.
    fn attach(&mut self, node: GraphNode, parent: &EntityId) -> (r: Result<Option<GraphNode>, GraphError>)
        ensures
            graph_wf(final(self)@),
            match r {
                Ok(previous) => attach_outcome(old(self)@, node@, parent@) == Ok::<GraphView, Seq<char>>(
                    final(self)@,
                ) && match previous {
                    Some(p) => lookup(old(self)@.nodes, node@.id) == Some(p@),
                    None => lookup(old(self)@.nodes, node@.id) is None,
                },
                Err(GraphError::MissingNode(id)) => attach_outcome(old(self)@, node@, parent@) == Err::<
                    GraphView,
                    Seq<char>,
                >(id@) && final(self)@ == old(self)@,
            },
    {
        proof {
            use_type_invariant(&*self);
        }
        if !self.contains_node(parent) {
            return Err(GraphError::MissingNode(parent.duplicate()));
        }
        let ghost g = self@;
        let ghost v = node@;
        let edge = GraphEdge::new_with_provenance(
            parent.duplicate(),
            node.id().duplicate(),
            EdgeKind::Contains,
            duplicate_provenance(node.provenance()),
        );
        let previous = self.insert_node(node);
        proof {
            lemma_lookup(g.nodes, parent@);
            lemma_insert_node_into(g.nodes, v);
            lemma_lookup(self@.nodes, parent@);
        }
        match self.insert_edge(edge) {
            Ok(_) => Ok(previous),
            Err(e) => Err(e),
        }
    }

    /// Inserts a measure node and connects it to its metadata object.
    pub fn insert_measure(&mut self, measure: &Measure) -> (r: Result<Option<GraphNode>, GraphError>)
        ensures
            graph_wf(final(self)@),
            ({
                let node = NodeView {
                    id: measure@.id,
                    name: measure@.name,
                    kind: NodeKind::Measure,
                    provenance: measure@.provenance,
                };
                match r {
                    Ok(previous) => attach_outcome(old(self)@, node, measure@.parent_id) == Ok::<
                        GraphView,
                        Seq<char>,
                    >(final(self)@) && match previous {
                        Some(p) => lookup(old(self)@.nodes, node.id) == Some(p@),
                        None => lookup(old(self)@.nodes, node.id) is None,
                    },
                    Err(GraphError::MissingNode(id)) => attach_outcome(old(self)@, node, measure@.parent_id)
                        == Err::<GraphView, Seq<char>>(id@) && final(self)@ == old(self)@,
                }
            }),
    {
        let node = GraphNode::new_with_provenance(
            measure.id().duplicate(),
            measure.name().duplicate(),
            NodeKind::Measure,
            duplicate_provenance(measure.provenance()),
        );
        self.attach(node, measure.parent_id())
    }

    /// Inserts or replaces an access-right node; no owner edge is added.
    pub fn insert_access_right(&mut self, access_right: &AccessRight) -> (r: Option<GraphNode>)
        ensures
            ({
                let node = NodeView {
                    id: access_right@.0,
                    name: access_right@.1,
                    kind: NodeKind::AccessRight,
                    provenance: access_right@.5,
                };
                &&& final(self)@ == (GraphView {
                    nodes: insert_node_into(old(self)@.nodes, node),
                    edges: old(self)@.edges,
                })
                &&& match r {
                    Some(previous) => lookup(old(self)@.nodes, node.id) == Some(previous@),
                    None => lookup(old(self)@.nodes, node.id) is None,
                }
            }),
            graph_wf(final(self)@),
    {
        let records = duplicate_provenance(access_right.provenance());
        assert(provenance_views(records@) =~= access_right@.5);
        self.insert_node(
            GraphNode::new_with_provenance(
                access_right.id().duplicate(),
                access_right.name().duplicate(),
                NodeKind::AccessRight,
                records,
            ),
        )
    }

    /// Returns all nodes of a kind, in identifier order.
    pub fn nodes_by_kind(&self, kind: NodeKind) -> (r: Vec<&GraphNode>)
        ensures
            node_ref_views(r@) == nodes_of_kind(self@.nodes, kind),
    {
        let ghost v = self@.nodes;
        let mut out: Vec<&GraphNode> = Vec::new();
        let mut i: usize = 0;
        while i < self.nodes.len()
            invariant
                i <= self.nodes@.len(),
                v == node_views(self.nodes@),
                node_ref_views(out@) == nodes_of_kind(v.take(i as int), kind),
            decreases self.nodes@.len() - i,
        {
            let n = &self.nodes[i];
            let ghost before = out@;
            if n.kind() == kind {
                out.push(n);
                assert(node_ref_views(out@) =~= node_ref_views(before).push(n@));
            }
            assert(v.take(i + 1).drop_last() =~= v.take(i as int));
            i = i + 1;
        }
        assert(v.take(i as int) =~= v);
        out
    }

    /// Returns the edges that meet every given constraint, in edge order.
    fn select(&self, source: Option<&EntityId>, target: Option<&EntityId>, kind: Option<EdgeKind>) -> (r: Vec<
        &GraphEdge,
    >)
        ensures
            edge_ref_views(r@) == select_edges(self@.edges, id_option(source), id_option(target), kind),
    {
        let ghost v = self@.edges;
        let mut out: Vec<&GraphEdge> = Vec::new();
        let mut i: usize = 0;
        while i < self.edges.len()
            invariant
                i <= self.edges@.len(),
                v == edge_views(self.edges@),
                edge_ref_views(out@) == select_edges(v.take(i as int), id_option(source), id_option(target), kind),
            decreases self.edges@.len() - i,
        {
            let e = &self.edges[i];
            let source_ok = match source {
                Some(s) => id_equal(e.source(), s),
                None => true,
            };
            let target_ok = match target {
                Some(t) => id_equal(e.target(), t),
                None => true,
            };
            let kind_ok = match kind {
                Some(k) => e.kind() == k,
                None => true,
            };
            let ghost before = out@;
            if source_ok && target_ok && kind_ok {
                out.push(e);
                assert(edge_ref_views(out@) =~= edge_ref_views(before).push(e@));
            }
            assert(v.take(i + 1).drop_last() =~= v.take(i as int));
            i = i + 1;
        }
        assert(v.take(i as int) =~= v);
        out
    }

    /// Returns the edges leaving `source`, in edge order.
    pub fn outgoing(&self, source: &EntityId) -> (r: Vec<&GraphEdge>)
        ensures
            edge_ref_views(r@) == select_edges(self@.edges, Some(source@), None, None),
    {
        self.select(Some(source), None, None)
    }

    /// Returns the edges of a kind leaving `source`, in edge order.
    pub fn outgoing_by_kind(&self, source: &EntityId, kind: EdgeKind) -> (r: Vec<&GraphEdge>)
        ensures
            edge_ref_views(r@) == select_edges(self@.edges, Some(source@), None, Some(kind)),
    {
        self.select(Some(source), None, Some(kind))
    }

    /// Returns the edges entering `target`, in edge order.
    pub fn incoming(&self, target: &EntityId) -> (r: Vec<&GraphEdge>)
        ensures
            edge_ref_views(r@) == select_edges(self@.edges, None, Some(target@), None),
    {
        self.select(None, Some(target), None)
    }

    /// Compares this graph snapshot with a newer one.
    pub fn diff(&self, new: &Self) -> (r: SemanticGraphDiff)
        ensures
            r@ == graph_diff(self@, new@),
    {
        SemanticGraphDiff::between(self, new)
    }

    /// Creates a read-only query object for this graph snapshot.
    pub fn query(&self) -> (r: SemanticGraphQuery<'_>)
        ensures
            r@ == self@,
    {
        SemanticGraphQuery::new(self)
    }

    /// Returns the node with identifier `id`.
    pub fn node(&self, id: &EntityId) -> (r: Option<&GraphNode>)
        ensures
            match r {
                Some(n) => lookup(self@.nodes, id@) == Some(n@),
                None => lookup(self@.nodes, id@) is None,
            },
    {
        let p = node_position(&self.nodes, id);
        if p < self.nodes.len() && id_equal(self.nodes[p].id(), id) {
            Some(&self.nodes[p])
        } else {
            None
        }
    }

    /// Returns all nodes in identifier order.
    pub fn nodes(&self) -> (r: &[GraphNode])
        ensures
            node_views(r@) == self@.nodes,
    {
        self.nodes.as_slice()
    }

    /// Returns all edges in edge order.
    pub fn edges(&self) -> (r: &[GraphEdge])
        ensures
            edge_views(r@) == self@.edges,
    {
        self.edges.as_slice()
    }

    /// Returns the number of nodes.
    pub fn node_count(&self) -> (r: usize)
        ensures
            r == self@.nodes.len(),
    {
        self.nodes.len()
    }

    /// Returns the number of edges.
    pub fn edge_count(&self) -> (r: usize)
        ensures
            r == self@.edges.len(),
    {
        self.edges.len()
    }

    /// Returns `true` when the graph has no nodes.
    pub fn is_empty(&self) -> (r: bool)
        ensures
            r == (self@.nodes.len() == 0),
    {
        self.nodes.len() == 0
    }
}

impl Default for SemanticGraph {
    fn default() -> (r: Self)
        ensures
            r@ == (GraphView { nodes: Seq::empty(), edges: Seq::empty() }),
    {
        SemanticGraph::new()
    }
}

} // verus!
