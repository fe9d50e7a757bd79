//! Read-only queries over a semantic graph snapshot: lookups, ownership,
//! neighbors, direct relations and bounded breadth-first traversal. Edges are
//! returned in stable edge-identifier order and nodes in identifier order.

use vstd::prelude::*;

use crate::entity::{EntityId, EntityName};
use crate::graph::edge::{EdgeView, GraphEdge};
use crate::graph::edge_identity::{edge_id, edge_identity_text};
use crate::graph::identity::{EdgeId, NodeId};
use crate::graph::kind::{EdgeKind, NodeKind};
use crate::graph::node::{GraphNode, NodeView};
use crate::graph::query::{
    filter_allows, is_dependency_kind, SemanticGraphEdgeFilter, SemanticGraphTraversalDirection,
    SemanticGraphTraversalNode, SemanticGraphTraversalOptions,
};
use crate::graph::semantic_graph::{
    edge_ref_views, graph_wf, lookup, node_ref_views, nodes_of_kind, select_edges, GraphView,
    SemanticGraph,
};
use crate::ordered::{
    into_values, sort_stable, sort_unique, sorted_stable, sorted_unique, values_of, KeyView, Keyed,
    keyed_views,
};
use crate::text::{all_ws, text_equal};

verus! {

/// Sort key of an edge: its stable identifier.
pub open spec fn edge_key(x: EdgeView) -> KeyView {
    (edge_identity_text(x.source, x.target, x.kind), Seq::empty())
}

/// Edges ordered by stable identifier, keeping the first of each identifier.
pub open spec fn edges_by_id(e: Seq<EdgeView>) -> Seq<EdgeView> {
    values_of(sorted_unique(e.map_values(|x: EdgeView| (edge_key(x), x))))
}

/// Nodes ordered by identifier, keeping the first of each identifier.
pub open spec fn nodes_by_id(n: Seq<NodeView>) -> Seq<NodeView> {
    values_of(sorted_unique(n.map_values(|x: NodeView| ((x.id, Seq::<char>::empty()), x))))
}

/// The node stored under the identifier text `id`; blank text names no node.
pub open spec fn node_at(g: GraphView, id: Seq<char>) -> Option<NodeView> {
    if all_ws(id) {
        None
    } else {
        lookup(g.nodes, id)
    }
}

/// View of an optional node reference.
pub open spec fn opt_node_view(n: Option<&GraphNode>) -> Option<NodeView> {
    match n {
        Some(x) => Some(x@),
        None => None,
    }
}

/// View of an optional edge reference.
pub open spec fn opt_edge_view(e: Option<&GraphEdge>) -> Option<EdgeView> {
    match e {
        Some(x) => Some(x@),
        None => None,
    }
}

/// Edges leaving (`downstream`) or entering the node `id`, by stable identifier.
pub open spec fn edges_at(g: GraphView, id: Seq<char>, downstream: bool) -> Seq<EdgeView> {
    if all_ws(id) {
        Seq::empty()
    } else if downstream {
        edges_by_id(select_edges(g.edges, Some(id), None, None))
    } else {
        edges_by_id(select_edges(g.edges, None, Some(id), None))
    }
}

/// Whether the direction follows edges from source to target.
pub open spec fn is_downstream(direction: SemanticGraphTraversalDirection) -> bool {
    direction == SemanticGraphTraversalDirection::Downstream
}

/// The endpoint of `x` that a query in this direction reaches.
pub open spec fn far_end(x: EdgeView, downstream: bool) -> Seq<char> {
    if downstream {
        x.target
    } else {
        x.source
    }
}

/// Nodes of `n` with a given name and, when given, a given kind, in order.
pub open spec fn nodes_named(n: Seq<NodeView>, name: Seq<char>, kind: Option<NodeKind>) -> Seq<NodeView>
    decreases n.len(),
{
    if n.len() == 0 {
        Seq::empty()
    } else {
        let rest = nodes_named(n.drop_last(), name, kind);
        if n.last().name == name && (kind matches Some(k) ==> n.last().kind == k) {
            rest.push(n.last())
        } else {
            rest
        }
    }
}

/// The nodes that the far ends of `e` name, skipping ends without a node.
pub open spec fn far_nodes(nodes: Seq<NodeView>, e: Seq<EdgeView>, downstream: bool) -> Seq<NodeView>
    decreases e.len(),
{
    if e.len() == 0 {
        Seq::empty()
    } else {
        let rest = far_nodes(nodes, e.drop_last(), downstream);
        match lookup(nodes, far_end(e.last(), downstream)) {
            Some(v) => rest.push(v),
            None => rest,
        }
    }
}

/// Edges of `e` that the filter accepts and, when `dependencies` holds, that
/// are dependency edges.
pub open spec fn filter_kinds(e: Seq<EdgeView>, filter: Option<Seq<EdgeKind>>, dependencies: bool) -> Seq<
    EdgeView,
>
    decreases e.len(),
{
    if e.len() == 0 {
        Seq::empty()
    } else {
        let rest = filter_kinds(e.drop_last(), filter, dependencies);
        if filter_allows(filter, e.last().kind) && (dependencies ==> is_dependency_kind(e.last().kind)) {
            rest.push(e.last())
        } else {
            rest
        }
    }
}

/// Containment owners of `child`.
pub open spec fn owners_of(g: GraphView, child: Seq<char>) -> Seq<NodeView> {
    far_nodes(g.nodes, select_edges(edges_at(g, child, false), None, None, Some(EdgeKind::Contains)), false)
}

/// Immediate children of `owner`, by identifier.
pub open spec fn children_of(g: GraphView, owner: Seq<char>) -> Seq<NodeView> {
    nodes_by_id(
        far_nodes(g.nodes, select_edges(edges_at(g, owner, true), None, None, Some(EdgeKind::Contains)), true),
    )
}

/// Direct neighbors of `id` across the edges the filter accepts, by identifier.
pub open spec fn neighbors_of(
    g: GraphView,
    id: Seq<char>,
    downstream: bool,
    filter: Option<Seq<EdgeKind>>,
) -> Seq<NodeView> {
    nodes_by_id(far_nodes(g.nodes, filter_kinds(edges_at(g, id, downstream), filter, false), downstream))
}

/// First edge of `e` from position `i` on whose stable identifier is `id`.
pub open spec fn edge_with_id(e: Seq<EdgeView>, id: Seq<char>, i: int) -> Option<EdgeView>
    decreases e.len() - i,
{
    if i < 0 || i >= e.len() {
        None
    } else if edge_key(e[i]).0 == id {
        Some(e[i])
    } else {
        edge_with_id(e, id, i + 1)
    }
}

/// Returns the entity identifier with the text of `id`, unless it is blank.
fn entity_of(id: &NodeId) -> (r: Option<EntityId>)
    ensures
        match r {
            Some(e) => !all_ws(id@) && e@ == id@,
            None => all_ws(id@),
        },
{
    match EntityId::new(id.as_str()) {
        Ok(e) => Some(e),
        Err(_) => None,
    }
}

/// Orders edges by stable identifier, keeping the first of each identifier.
fn sorted_edges<'g>(edges: Vec<&'g GraphEdge>) -> (r: Vec<&'g GraphEdge>)
    ensures
        edge_ref_views(r@) == edges_by_id(edge_ref_views(edges@)),
{
    let ghost src = edge_ref_views(edges@);
    let mut items: Vec<Keyed<&'g GraphEdge>> = Vec::new();
    let mut i: usize = 0;
    while i < edges.len()
        invariant
            i <= edges@.len(),
            src == edge_ref_views(edges@),
            keyed_views(items@) == src.take(i as int).map_values(|x: EdgeView| (edge_key(x), x)),
        decreases edges@.len() - i,
    {
        let e = edges[i];
        let id = edge_id(e.source().as_str(), e.target().as_str(), e.kind());
        let ghost before = items@;
        items.push(Keyed { first: id.into_inner(), second: String::new(), value: e });
        assert(keyed_views(items@) =~= keyed_views(before).push((edge_key(e@), e@)));
        assert(src.take(i + 1) =~= src.take(i as int).push(e@));
        i = i + 1;
    }
    assert(src.take(i as int) =~= src);
    let r = into_values(sort_unique(items));
    assert(edge_ref_views(r@) =~= r@.map_values(|v: &GraphEdge| v@));
    r
}

/// Orders nodes by identifier, keeping the first of each identifier.
fn sorted_nodes<'g>(nodes: Vec<&'g GraphNode>) -> (r: Vec<&'g GraphNode>)
    ensures
        node_ref_views(r@) == nodes_by_id(node_ref_views(nodes@)),
{
    let ghost src = node_ref_views(nodes@);
    let mut items: Vec<Keyed<&'g GraphNode>> = Vec::new();
    let mut i: usize = 0;
    while i < nodes.len()
        invariant
            i <= nodes@.len(),
            src == node_ref_views(nodes@),
            keyed_views(items@) == src.take(i as int).map_values(
                |x: NodeView| ((x.id, Seq::<char>::empty()), x),
            ),
        decreases nodes@.len() - i,
    {
        let n = nodes[i];
        let ghost before = items@;
        items.push(Keyed { first: n.id().as_str().to_owned(), second: String::new(), value: n });
        assert(keyed_views(items@) =~= keyed_views(before).push(((n@.id, Seq::<char>::empty()), n@)));
        assert(src.take(i + 1) =~= src.take(i as int).push(n@));
        i = i + 1;
    }
    assert(src.take(i as int) =~= src);
    let r = into_values(sort_unique(items));
    assert(node_ref_views(r@) =~= r@.map_values(|v: &GraphNode| v@));
    r
}

/// Keeps the edges of one kind, in order.
fn keep_edge_kind<'g>(edges: Vec<&'g GraphEdge>, kind: EdgeKind) -> (r: Vec<&'g GraphEdge>)
    ensures
        edge_ref_views(r@) == select_edges(edge_ref_views(edges@), None, None, Some(kind)),
{
    let ghost src = edge_ref_views(edges@);
    let mut out: Vec<&'g GraphEdge> = Vec::new();
    let mut i: usize = 0;
    while i < edges.len()
        invariant
            i <= edges@.len(),
            src == edge_ref_views(edges@),
            edge_ref_views(out@) == select_edges(src.take(i as int), None, None, Some(kind)),
        decreases edges@.len() - i,
    {
        let e = edges[i];
        let ghost before = out@;
        if e.kind() == kind {
            out.push(e);
            assert(edge_ref_views(out@) =~= edge_ref_views(before).push(e@));
        }
        assert(src.take(i + 1).drop_last() =~= src.take(i as int));
        i = i + 1;
    }
    assert(src.take(i as int) =~= src);
    out
}

/// Keeps the nodes of one kind, in order.
fn keep_node_kind<'g>(nodes: Vec<&'g GraphNode>, kind: NodeKind) -> (r: Vec<&'g GraphNode>)
    ensures
        node_ref_views(r@) == nodes_of_kind(node_ref_views(nodes@), kind),
{
    let ghost src = node_ref_views(nodes@);
    let mut out: Vec<&'g GraphNode> = Vec::new();
    let mut i: usize = 0;
    while i < nodes.len()
        invariant
            i <= nodes@.len(),
            src == node_ref_views(nodes@),
            node_ref_views(out@) == nodes_of_kind(src.take(i as int), kind),
        decreases nodes@.len() - i,
    {
        let n = nodes[i];
        let ghost before = out@;
        if n.kind() == kind {
            out.push(n);
            assert(node_ref_views(out@) =~= node_ref_views(before).push(n@));
        }
        assert(src.take(i + 1).drop_last() =~= src.take(i as int));
        i = i + 1;
    }
    assert(src.take(i as int) =~= src);
    out
}


/// A traversal record: reached node identifier, depth and discovering edge.
pub type TraversalView = (Seq<char>, usize, Option<Seq<char>>);

/// Breadth-first traversal state: visited identifiers, the queue of
/// identifiers with their depths, and the records so far.
pub type BfsState = (Seq<Seq<char>>, Seq<(Seq<char>, usize)>, Seq<TraversalView>);

/// Traversal options: direction, strict maximum depth, edge filter and
/// whether the start node is reported.
pub type OptionsView = (SemanticGraphTraversalDirection, usize, Option<Seq<EdgeKind>>, bool);

/// Neighbor steps across the edges of `e` whose far end names a node: the
/// neighbor identifier and the edge identifier, keyed by both.
pub open spec fn step_entries(nodes: Seq<NodeView>, e: Seq<EdgeView>, downstream: bool) -> Seq<
    (KeyView, (Seq<char>, Seq<char>)),
>
    decreases e.len(),
{
    if e.len() == 0 {
        Seq::empty()
    } else {
        let rest = step_entries(nodes, e.drop_last(), downstream);
        let x = e.last();
        let far = far_end(x, downstream);
        if lookup(nodes, far) is Some {
            rest.push(((far, edge_key(x).0), (far, edge_key(x).0)))
        } else {
            rest
        }
    }
}

/// Neighbor steps from `id` in a direction across accepted edges, ordered by
/// neighbor identifier and then edge identifier.
pub open spec fn traversal_steps(
    g: GraphView,
    id: Seq<char>,
    direction: SemanticGraphTraversalDirection,
    filter: Option<Seq<EdgeKind>>,
) -> Seq<(Seq<char>, Seq<char>)> {
    values_of(
        sorted_stable(
            step_entries(
                g.nodes,
                filter_kinds(edges_at(g, id, is_downstream(direction)), filter, false),
                is_downstream(direction),
            ),
        ),
    )
}

/// The state once the steps `ns` from a node at `depth` are taken in order:
/// each neighbor not yet visited is visited, queued and recorded at the next
/// depth with the edge that discovered it.
pub open spec fn absorb(st: BfsState, ns: Seq<(Seq<char>, Seq<char>)>, depth: usize) -> BfsState
    decreases ns.len(),
{
    if ns.len() == 0 {
        st
    } else {
        let s1 = absorb(st, ns.drop_last(), depth);
        let n = ns.last();
        if s1.0.contains(n.0) {
            s1
        } else {
            (
                s1.0.push(n.0),
                s1.1.push((n.0, (depth + 1) as usize)),
                s1.2.push((n.0, (depth + 1) as usize, Some(n.1))),
            )
        }
    }
}

/// One traversal step: take the head of the queue and, below the maximum
/// depth, take its neighbor steps.
pub open spec fn bfs_step(g: GraphView, o: OptionsView, st: BfsState) -> BfsState {
    if st.1.len() == 0 {
        st
    } else {
        let (current, depth) = st.1[0];
        let popped = (st.0, st.1.drop_first(), st.2);
        if depth == o.1 {
            popped
        } else {
            absorb(popped, traversal_steps(g, current, o.0, o.2), depth)
        }
    }
}

/// The state after `n` traversal steps.
pub open spec fn bfs_run(g: GraphView, o: OptionsView, st: BfsState, n: nat) -> BfsState
    decreases n,
{
    if n == 0 {
        st
    } else {
        bfs_run(g, o, bfs_step(g, o, st), (n - 1) as nat)
    }
}

/// The state before the first step from `start`.
pub open spec fn bfs_start(start: Seq<char>, o: OptionsView) -> BfsState {
    (
        seq![start],
        seq![(start, 0usize)],
        if o.3 {
            seq![(start, 0usize, None::<Seq<char>>)]
        } else {
            Seq::empty()
        },
    )
}

/// Views of traversal records.
pub open spec fn traversal_views(s: Seq<SemanticGraphTraversalNode>) -> Seq<TraversalView> {
    s.map_values(|x: SemanticGraphTraversalNode| x@)
}

/// Distinct identifiers that all name nodes are no more than the nodes.
proof fn lemma_distinct_ids_bounded(s: Seq<Seq<char>>, n: Seq<NodeView>)
    requires
        s.no_duplicates(),
        forall|i: int| 0 <= i < s.len() ==> lookup(n, #[trigger] s[i]) is Some,
    ensures
        s.len() <= n.len(),
{
    let ids = n.map_values(|v: NodeView| v.id);
    s.unique_seq_to_set();
    ids.lemma_cardinality_of_set();
    assert forall|x: Seq<char>| s.to_set().contains(x) implies ids.to_set().contains(x) by {
        let i = choose|i: int| 0 <= i < s.len() && s[i] == x;
        assert(lookup(n, s[i]) is Some);
        let p = crate::graph::semantic_graph::node_pos(n, x, 0);
        assert(ids[p] == x);
    }
    vstd::set_lib::lemma_len_subset(s.to_set(), ids.to_set());
}

/// Each neighbor step names a node of the graph.
proof fn lemma_traversal_steps_present(
    g: GraphView,
    id: Seq<char>,
    direction: SemanticGraphTraversalDirection,
    filter: Option<Seq<EdgeKind>>,
)
    ensures
        forall|k: int|
            0 <= k < traversal_steps(g, id, direction, filter).len() ==> lookup(
                g.nodes,
                (#[trigger] traversal_steps(g, id, direction, filter)[k]).0,
            ) is Some,
{
    let e = filter_kinds(edges_at(g, id, is_downstream(direction)), filter, false);
    let entries = step_entries(g.nodes, e, is_downstream(direction));
    lemma_step_entries_present(g.nodes, e, is_downstream(direction));
    crate::ordered::lemma_sorted_stable_members(entries);
    let t = sorted_stable(entries);
    assert forall|k: int| 0 <= k < traversal_steps(g, id, direction, filter).len() implies lookup(
        g.nodes,
        (#[trigger] traversal_steps(g, id, direction, filter)[k]).0,
    ) is Some by {
        assert(traversal_steps(g, id, direction, filter)[k] == t[k].1);
        let j = choose|j: int| 0 <= j < entries.len() && entries[j] == t[k];
        assert(lookup(g.nodes, entries[j].1.0) is Some);
    }
}

proof fn lemma_step_entries_present(nodes: Seq<NodeView>, e: Seq<EdgeView>, downstream: bool)
    ensures
        forall|k: int|
            0 <= k < step_entries(nodes, e, downstream).len() ==> lookup(
                nodes,
                (#[trigger] step_entries(nodes, e, downstream)[k]).1.0,
            ) is Some,
    decreases e.len(),
{
    if e.len() > 0 {
        lemma_step_entries_present(nodes, e.drop_last(), downstream);
    }
}

/// Running `n + 1` steps is running `n` steps and then one more.
proof fn lemma_bfs_run_step(g: GraphView, o: OptionsView, st: BfsState, n: nat)
    ensures
        bfs_run(g, o, st, n + 1) == bfs_step(g, o, bfs_run(g, o, st, n)),
    decreases n,
{
    if n > 0 {
        lemma_bfs_run_step(g, o, bfs_step(g, o, st), (n - 1) as nat);
        assert(bfs_run(g, o, st, n + 1) == bfs_run(g, o, bfs_step(g, o, st), n));
        assert(bfs_run(g, o, st, n) == bfs_run(g, o, bfs_step(g, o, st), (n - 1) as nat));
    } else {
        assert(bfs_run(g, o, st, 1) == bfs_run(g, o, bfs_step(g, o, st), 0));
    }
}

/// View of a direct relation: the related node, the reason edge, the edge's
/// stable identifier and the direction.
pub type RelationView = (NodeView, EdgeView, Seq<char>, SemanticGraphTraversalDirection);

/// Relations across the edges of `e` whose far end names a node, keyed by the
/// related node's identifier and the edge's stable identifier.
pub open spec fn relation_entries(
    nodes: Seq<NodeView>,
    e: Seq<EdgeView>,
    direction: SemanticGraphTraversalDirection,
) -> Seq<(KeyView, RelationView)>
    decreases e.len(),
{
    if e.len() == 0 {
        Seq::empty()
    } else {
        let rest = relation_entries(nodes, e.drop_last(), direction);
        let x = e.last();
        match lookup(nodes, far_end(x, is_downstream(direction))) {
            Some(v) => rest.push(((v.id, edge_key(x).0), (v, x, edge_key(x).0, direction))),
            None => rest,
        }
    }
}

/// Direct relations of `id` in a direction across the edges the filter
/// accepts (and, with `dependencies`, only dependency edges), ordered by
/// related node identifier and then edge identifier.
pub open spec fn relations_of(
    g: GraphView,
    id: Seq<char>,
    direction: SemanticGraphTraversalDirection,
    filter: Option<Seq<EdgeKind>>,
    dependencies: bool,
) -> Seq<RelationView> {
    values_of(
        sorted_stable(
            relation_entries(
                g.nodes,
                filter_kinds(edges_at(g, id, is_downstream(direction)), filter, dependencies),
                direction,
            ),
        ),
    )
}

/// The kinds that dependency and usage queries follow, listed one by one.
pub open spec fn listed_dependency_kind(kind: EdgeKind) -> bool {
    kind == EdgeKind::Calls || kind == EdgeKind::References || kind == EdgeKind::Reads || kind
        == EdgeKind::Writes || kind == EdgeKind::DependsOn
}

proof fn lemma_filter_kinds_dependencies(e: Seq<EdgeView>)
    ensures
        forall|x: EdgeView|
            #[trigger] filter_kinds(e, None, true).contains(x) <==> (e.contains(x) && is_dependency_kind(
                x.kind,
            )),
    decreases e.len(),
{
    if e.len() > 0 {
        let prev = e.drop_last();
        lemma_filter_kinds_dependencies(prev);
        assert forall|x: EdgeView|
            #[trigger] filter_kinds(e, None, true).contains(x) <==> (e.contains(x) && is_dependency_kind(
                x.kind,
            )) by {
            if e.contains(x) && is_dependency_kind(x.kind) {
                let i = choose|i: int| 0 <= i < e.len() && e[i] == x;
                let rest = filter_kinds(prev, None, true);
                if i < e.len() - 1 {
                    assert(prev[i] == x);
                    assert(prev.contains(x));
                    assert(rest.contains(x));
                    let k = choose|k: int| 0 <= k < rest.len() && rest[k] == x;
                    assert(filter_kinds(e, None, true)[k] == x);
                } else {
                    assert(filter_kinds(e, None, true).last() == x);
                }
            }
            if filter_kinds(e, None, true).contains(x) {
                let rest = filter_kinds(prev, None, true);
                let i = choose|i: int| 0 <= i < filter_kinds(e, None, true).len() && filter_kinds(e, None, true)[i] == x;
                if i < rest.len() {
                    assert(rest[i] == x);
                    assert(rest.contains(x));
                    let j = choose|j: int| 0 <= j < prev.len() && prev[j] == x;
                    assert(e[j] == x);
                } else {
                    assert(e[e.len() - 1] == x);
                }
            }
        }
    }
}

proof fn lemma_relation_entries_members(
    nodes: Seq<NodeView>,
    e: Seq<EdgeView>,
    direction: SemanticGraphTraversalDirection,
)
    ensures
        forall|x: EdgeView|
            e.contains(x) && lookup(nodes, far_end(x, is_downstream(direction))) is Some ==> relation_entries(
                nodes,
                e,
                direction,
            ).contains(
                (
                    (lookup(nodes, far_end(x, is_downstream(direction)))->0.id, edge_key(x).0),
                    (lookup(nodes, far_end(x, is_downstream(direction)))->0, x, edge_key(x).0, direction),
                ),
            ),
        forall|k: int|
            0 <= k < relation_entries(nodes, e, direction).len() ==> e.contains(
                (#[trigger] relation_entries(nodes, e, direction)[k]).1.1,
            ),
    decreases e.len(),
{
    if e.len() > 0 {
        let prev = e.drop_last();
        lemma_relation_entries_members(nodes, prev, direction);
        let r = relation_entries(nodes, e, direction);
        let rest = relation_entries(nodes, prev, direction);
        assert forall|x: EdgeView|
            e.contains(x) && lookup(nodes, far_end(x, is_downstream(direction))) is Some implies r.contains(
                (
                    (lookup(nodes, far_end(x, is_downstream(direction)))->0.id, edge_key(x).0),
                    (lookup(nodes, far_end(x, is_downstream(direction)))->0, x, edge_key(x).0, direction),
                ),
            ) by {
            let v = lookup(nodes, far_end(x, is_downstream(direction)))->0;
            let entry = ((v.id, edge_key(x).0), (v, x, edge_key(x).0, direction));
            let i = choose|i: int| 0 <= i < e.len() && e[i] == x;
            if i < e.len() - 1 {
                assert(prev[i] == x);
                assert(prev.contains(x));
                assert(rest.contains(entry));
                let k = choose|k: int| 0 <= k < rest.len() && rest[k] == entry;
                assert(r[k] == entry);
            } else {
                assert(r[r.len() - 1] == entry);
            }
        }
        assert forall|k: int| 0 <= k < r.len() implies e.contains((#[trigger] r[k]).1.1) by {
            if k < rest.len() {
                assert(r[k] == rest[k]);
                let j = choose|j: int| 0 <= j < prev.len() && prev[j] == rest[k].1.1;
                assert(e[j] == prev[j]);
            } else {
                assert(e[e.len() - 1] == r[k].1.1);
            }
        }
    }
}

/// Dependencies and usages follow exactly the edges of kind Calls,
/// References, Reads, Writes or DependsOn: each such edge at the node whose
/// far end is a node of the graph gives a relation across it, and every
/// relation comes from such an edge at the node.
pub proof fn law_dependency_relations_follow_listed_kinds(
    g: GraphView,
    id: Seq<char>,
    direction: SemanticGraphTraversalDirection,
)
    ensures
        forall|x: EdgeView|
            #![trigger edges_at(g, id, is_downstream(direction)).contains(x)]
            edges_at(g, id, is_downstream(direction)).contains(x) && listed_dependency_kind(x.kind) && lookup(
                g.nodes,
                far_end(x, is_downstream(direction)),
            ) is Some ==> relations_of(g, id, direction, None, true).contains(
                (lookup(g.nodes, far_end(x, is_downstream(direction)))->0, x, edge_key(x).0, direction),
            ),
        forall|i: int|
            0 <= i < relations_of(g, id, direction, None, true).len() ==> edges_at(
                g,
                id,
                is_downstream(direction),
            ).contains((#[trigger] relations_of(g, id, direction, None, true)[i]).1) && listed_dependency_kind(
                relations_of(g, id, direction, None, true)[i].1.kind,
            ),
{
    let edges = edges_at(g, id, is_downstream(direction));
    let e = filter_kinds(edges, None, true);
    let entries = relation_entries(g.nodes, e, direction);
    let sorted = sorted_stable(entries);
    let rel = relations_of(g, id, direction, None, true);
    lemma_filter_kinds_dependencies(edges);
    lemma_relation_entries_members(g.nodes, e, direction);
    crate::ordered::lemma_sorted_stable_keeps(entries);
    crate::ordered::lemma_sorted_stable_members(entries);
    assert(rel == values_of(sorted));
    assert forall|x: EdgeView|
        #![trigger edges.contains(x)]
        edges.contains(x) && listed_dependency_kind(x.kind) && lookup(
            g.nodes,
            far_end(x, is_downstream(direction)),
        ) is Some implies rel.contains(
            (lookup(g.nodes, far_end(x, is_downstream(direction)))->0, x, edge_key(x).0, direction),
        ) by {
        let v = lookup(g.nodes, far_end(x, is_downstream(direction)))->0;
        let entry = ((v.id, edge_key(x).0), (v, x, edge_key(x).0, direction));
        assert(e.contains(x));
        assert(entries.contains(entry));
        let j = choose|j: int| 0 <= j < entries.len() && entries[j] == entry;
        assert(sorted.contains(entries[j]));
        let k = choose|k: int| 0 <= k < sorted.len() && sorted[k] == entry;
        assert(rel[k] == entry.1);
    }
    assert forall|i: int| 0 <= i < rel.len() implies edges.contains((#[trigger] rel[i]).1)
        && listed_dependency_kind(rel[i].1.kind) by {
        assert(rel[i] == sorted[i].1);
        let j = choose|j: int| 0 <= j < entries.len() && entries[j] == sorted[i];
        assert(e.contains(entries[j].1.1));
    }
}

/// Borrowed direct relation returned by dependency and usage queries.
#[derive(Debug, Clone)]
pub struct SemanticGraphRelation<'graph> {
    node: &'graph GraphNode,
    edge: &'graph GraphEdge,
    edge_id: EdgeId,
    direction: SemanticGraphTraversalDirection,
}

impl<'graph> View for SemanticGraphRelation<'graph> {
    type V = RelationView;

    closed spec fn view(&self) -> RelationView {
        (self.node@, self.edge@, self.edge_id@, self.direction)
    }
}

impl<'graph> SemanticGraphRelation<'graph> {
    /// Returns the related node.
    pub fn node(&self) -> (r: &'graph GraphNode)
        ensures
            r@ == self@.0,
    {
        self.node
    }

    /// Returns the reason edge connecting the query node to the related node.
    pub fn edge(&self) -> (r: &'graph GraphEdge)
        ensures
            r@ == self@.1,
    {
        self.edge
    }

    /// Returns the stable identifier of the reason edge.
    pub fn edge_id(&self) -> (r: &EdgeId)
        ensures
            r@ == self@.2,
    {
        &self.edge_id
    }

    /// Returns the relation direction.
    pub fn direction(&self) -> (r: SemanticGraphTraversalDirection)
        ensures
            r == self@.3,
    {
        self.direction
    }
}

/// Views of a sequence of relations.
pub open spec fn relation_views(s: Seq<SemanticGraphRelation>) -> Seq<RelationView> {
    s.map_values(|x: SemanticGraphRelation| x@)
}

/// Borrowed read-only query object for a semantic graph snapshot.
#[derive(Debug, Clone)]
pub struct SemanticGraphQuery<'graph> {
    graph: &'graph SemanticGraph,
}

impl<'graph> View for SemanticGraphQuery<'graph> {
    type V = GraphView;

    closed spec fn view(&self) -> GraphView {
        self.graph@
    }
}

impl<'graph> SemanticGraphQuery<'graph> {
    /// Creates a read-only query object for `graph`.
    pub fn new(graph: &'graph SemanticGraph) -> (r: Self)
        ensures
            r@ == graph@,
    {
        SemanticGraphQuery { graph }
    }

    /// Builds the stable edge identifier used by query, diff and validation APIs.
    pub fn edge_id(source: &NodeId, target: &NodeId, kind: EdgeKind) -> (r: EdgeId)
        ensures
            r@ == edge_identity_text(source@, target@, kind),
    {
        edge_id(source.as_str(), target.as_str(), kind)
    }

    /// Returns `true` when `kind` participates in dependency queries: calls,
    /// references, reads, writes and depends-on; `Contains` is excluded.
    pub fn is_dependency_edge_kind(kind: EdgeKind) -> (r: bool)
        ensures
            r == is_dependency_kind(kind),
    {
        crate::graph::query::is_dependency_edge_kind(kind)
    }

    /// Looks up a node by stable identifier.
    pub fn node(&self, id: &NodeId) -> (r: Option<&'graph GraphNode>)
        ensures
            opt_node_view(r) == node_at(self@, id@),
    {
        match entity_of(id) {
            Some(e) => self.graph.node(&e),
            None => None,
        }
    }

    /// Looks up a node by the entity identifier used by graph storage.
    pub fn node_by_entity_id(&self, id: &EntityId) -> (r: Option<&'graph GraphNode>)
        ensures
            opt_node_view(r) == lookup(self@.nodes, id@),
    {
        self.graph.node(id)
    }

    /// Returns whether a node exists.
    pub fn contains_node(&self, id: &NodeId) -> (r: bool)
        ensures
            r == (node_at(self@, id@) is Some),
    {
        self.node(id).is_some()
    }

    /// Returns all nodes in identifier order.
    pub fn nodes(&self) -> (r: Vec<&'graph GraphNode>)
        ensures
            node_ref_views(r@) == self@.nodes,
    {
        let all = self.graph.nodes();
        let mut out: Vec<&'graph GraphNode> = Vec::new();
        let mut i: usize = 0;
        while i < all.len()
            invariant
                i <= all@.len(),
                crate::graph::semantic_graph::node_views(all@) == self@.nodes,
                node_ref_views(out@) == self@.nodes.take(i as int),
            decreases all@.len() - i,
        {
            let ghost before = out@;
            out.push(&all[i]);
            assert(node_ref_views(out@) =~= node_ref_views(before).push(all@[i as int]@));
            assert(self@.nodes.take(i + 1) =~= self@.nodes.take(i as int).push(all@[i as int]@));
            i = i + 1;
        }
        assert(self@.nodes.take(i as int) =~= self@.nodes);
        out
    }

    /// Returns nodes of `kind` in identifier order.
    pub fn nodes_by_kind(&self, kind: NodeKind) -> (r: Vec<&'graph GraphNode>)
        ensures
            node_ref_views(r@) == nodes_of_kind(self@.nodes, kind),
    {
        self.graph.nodes_by_kind(kind)
    }

    /// Nodes with exactly this name and, when given, this kind.
    fn named(&self, name: &EntityName, kind: Option<NodeKind>) -> (r: Vec<&'graph GraphNode>)
        ensures
            node_ref_views(r@) == nodes_named(self@.nodes, name@, kind),
    {
        let all = self.graph.nodes();
        let ghost v = self@.nodes;
        let mut out: Vec<&'graph GraphNode> = Vec::new();
        let mut i: usize = 0;
        while i < all.len()
            invariant
                i <= all@.len(),
                crate::graph::semantic_graph::node_views(all@) == v,
                node_ref_views(out@) == nodes_named(v.take(i as int), name@, kind),
            decreases all@.len() - i,
        {
            let n = &all[i];
            let kind_ok = match kind {
                Some(k) => n.kind() == k,
                None => true,
            };
            let ghost before = out@;
            if text_equal(n.name().as_str(), name.as_str()) && kind_ok {
                out.push(n);
                assert(node_ref_views(out@) =~= node_ref_views(before).push(n@));
            }
            assert(v.take(i + 1).drop_last() =~= v.take(i as int));
            i = i + 1;
        }
        assert(v.take(i as int) =~= v);
        out
    }

    /// Returns nodes with exactly this name, in identifier order.
    pub fn nodes_by_name(&self, name: &EntityName) -> (r: Vec<&'graph GraphNode>)
        ensures
            node_ref_views(r@) == nodes_named(self@.nodes, name@, None),
    {
        self.named(name, None)
    }

    /// Returns nodes with exactly this name and kind, in identifier order.
    pub fn nodes_by_name_and_kind(&self, name: &EntityName, kind: NodeKind) -> (r: Vec<&'graph GraphNode>)
        ensures
            node_ref_views(r@) == nodes_named(self@.nodes, name@, Some(kind)),
    {
        self.named(name, Some(kind))
    }

    /// The nodes named by the far ends of `edges`, skipping ends without a node.
    fn far_nodes_of(&self, edges: &Vec<&'graph GraphEdge>, downstream: bool) -> (r: Vec<&'graph GraphNode>)
        ensures
            node_ref_views(r@) == far_nodes(self@.nodes, edge_ref_views(edges@), downstream),
    {
        let ghost src = edge_ref_views(edges@);
        let mut out: Vec<&'graph GraphNode> = Vec::new();
        let mut i: usize = 0;
        while i < edges.len()
            invariant
                i <= edges@.len(),
                src == edge_ref_views(edges@),
                node_ref_views(out@) == far_nodes(self@.nodes, src.take(i as int), downstream),
            decreases edges@.len() - i,
        {
            let e = edges[i];
            let far = if downstream {
                e.target()
            } else {
                e.source()
            };
            let ghost before = out@;
            match self.graph.node(far) {
                Some(n) => {
                    out.push(n);
                    assert(node_ref_views(out@) =~= node_ref_views(before).push(n@));
                },
                None => {},
            }
            assert(src.take(i + 1).drop_last() =~= src.take(i as int));
            i = i + 1;
        }
        assert(src.take(i as int) =~= src);
        out
    }

    /// Returns all containment owners of `child`; several owners stay
    /// observable to callers.
    pub fn owners(&self, child: &NodeId) -> (r: Vec<&'graph GraphNode>)
        ensures
            node_ref_views(r@) == owners_of(self@, child@),
    {
        let edges = self.owner_edges(child);
        self.far_nodes_of(&edges, false)
    }

    /// Returns the owner of `child` when it has exactly one.
    pub fn owner(&self, child: &NodeId) -> (r: Option<&'graph GraphNode>)
        ensures
            opt_node_view(r) == (if owners_of(self@, child@).len() == 1 {
                Some(owners_of(self@, child@)[0])
            } else {
                None
            }),
    {
        let owners = self.owners(child);
        if owners.len() == 1 {
            Some(owners[0])
        } else {
            None
        }
    }

    /// Returns containment owner edges of `child` by stable edge identifier.
    pub fn owner_edges(&self, child: &NodeId) -> (r: Vec<&'graph GraphEdge>)
        ensures
            edge_ref_views(r@) == select_edges(edges_at(self@, child@, false), None, None, Some(EdgeKind::Contains)),
    {
        self.incoming_edges_by_kind(child, EdgeKind::Contains)
    }

    /// Returns the immediate children of `owner` in identifier order.
    pub fn children(&self, owner: &NodeId) -> (r: Vec<&'graph GraphNode>)
        ensures
            node_ref_views(r@) == children_of(self@, owner@),
    {
        let edges = self.outgoing_edges_by_kind(owner, EdgeKind::Contains);
        sorted_nodes(self.far_nodes_of(&edges, true))
    }

    /// Returns the immediate children of `owner` of one kind, in identifier order.
    pub fn children_by_kind(&self, owner: &NodeId, kind: NodeKind) -> (r: Vec<&'graph GraphNode>)
        ensures
            node_ref_views(r@) == nodes_of_kind(children_of(self@, owner@), kind),
    {
        keep_node_kind(self.children(owner), kind)
    }

    /// Looks up an edge by stable identifier, scanning the graph's edges.
    pub fn edge(&self, id: &EdgeId) -> (r: Option<&'graph GraphEdge>)
        ensures
            opt_edge_view(r) == edge_with_id(self@.edges, id@, 0),
    {
        let all = self.graph.edges();
        let ghost v = self@.edges;
        let mut i: usize = 0;
        while i < all.len()
            invariant
                i <= all@.len(),
                crate::graph::semantic_graph::edge_views(all@) == v,
                v == self@.edges,
                edge_with_id(v, id@, i as int) == edge_with_id(v, id@, 0),
            decreases all@.len() - i,
        {
            let e = &all[i];
            let candidate = edge_id(e.source().as_str(), e.target().as_str(), e.kind());
            if text_equal(candidate.as_str(), id.as_str()) {
                return Some(e);
            }
            i = i + 1;
        }
        None
    }

    /// Returns whether an edge with this stable identifier exists.
    pub fn contains_edge(&self, id: &EdgeId) -> (r: bool)
        ensures
            r == (edge_with_id(self@.edges, id@, 0) is Some),
    {
        self.edge(id).is_some()
    }

    /// All edges, as references, in graph order.
    fn edge_refs(&self) -> (r: Vec<&'graph GraphEdge>)
        ensures
            edge_ref_views(r@) == self@.edges,
    {
        let all = self.graph.edges();
        let mut out: Vec<&'graph GraphEdge> = Vec::new();
        let mut i: usize = 0;
        while i < all.len()
            invariant
                i <= all@.len(),
                crate::graph::semantic_graph::edge_views(all@) == self@.edges,
                edge_ref_views(out@) == self@.edges.take(i as int),
            decreases all@.len() - i,
        {
            let ghost before = out@;
            out.push(&all[i]);
            assert(edge_ref_views(out@) =~= edge_ref_views(before).push(all@[i as int]@));
            assert(self@.edges.take(i + 1) =~= self@.edges.take(i as int).push(all@[i as int]@));
            i = i + 1;
        }
        assert(self@.edges.take(i as int) =~= self@.edges);
        out
    }

    /// Returns all edges by stable edge identifier.
    pub fn edges(&self) -> (r: Vec<&'graph GraphEdge>)
        ensures
            edge_ref_views(r@) == edges_by_id(self@.edges),
    {
        sorted_edges(self.edge_refs())
    }

    /// Returns edges of `kind` by stable edge identifier.
    pub fn edges_by_kind(&self, kind: EdgeKind) -> (r: Vec<&'graph GraphEdge>)
        ensures
            edge_ref_views(r@) == edges_by_id(select_edges(self@.edges, None, None, Some(kind))),
    {
        sorted_edges(keep_edge_kind(self.edge_refs(), kind))
    }

    /// Returns the edges leaving `node` by stable edge identifier; a blank
    /// identifier names no node and gives none.
    pub fn outgoing_edges(&self, node: &NodeId) -> (r: Vec<&'graph GraphEdge>)
        ensures
            edge_ref_views(r@) == edges_at(self@, node@, true),
    {
        match entity_of(node) {
            Some(id) => sorted_edges(self.graph.outgoing(&id)),
            None => Vec::new(),
        }
    }

    /// Returns the edges entering `node` by stable edge identifier; a blank
    /// identifier names no node and gives none.
    pub fn incoming_edges(&self, node: &NodeId) -> (r: Vec<&'graph GraphEdge>)
        ensures
            edge_ref_views(r@) == edges_at(self@, node@, false),
    {
        match entity_of(node) {
            Some(id) => sorted_edges(self.graph.incoming(&id)),
            None => Vec::new(),
        }
    }

    /// Returns the edges of `kind` leaving `node` by stable edge identifier.
    pub fn outgoing_edges_by_kind(&self, node: &NodeId, kind: EdgeKind) -> (r: Vec<&'graph GraphEdge>)
        ensures
            edge_ref_views(r@) == select_edges(edges_at(self@, node@, true), None, None, Some(kind)),
    {
        keep_edge_kind(self.outgoing_edges(node), kind)
    }

    /// Returns the edges of `kind` entering `node` by stable edge identifier.
    pub fn incoming_edges_by_kind(&self, node: &NodeId, kind: EdgeKind) -> (r: Vec<&'graph GraphEdge>)
        ensures
            edge_ref_views(r@) == select_edges(edges_at(self@, node@, false), None, None, Some(kind)),
    {
        keep_edge_kind(self.incoming_edges(node), kind)
    }

    /// Edges at `node` in a direction that the filter accepts (and, with
    /// `dependencies`, that are dependency edges), by stable edge identifier.
    fn filtered_edges(
        &self,
        node: &NodeId,
        downstream: bool,
        filter: &SemanticGraphEdgeFilter,
        dependencies: bool,
    ) -> (r: Vec<&'graph GraphEdge>)
        ensures
            edge_ref_views(r@) == filter_kinds(edges_at(self@, node@, downstream), filter@, dependencies),
    {
        let edges = if downstream {
            self.outgoing_edges(node)
        } else {
            self.incoming_edges(node)
        };
        let ghost src = edge_ref_views(edges@);
        let mut out: Vec<&'graph GraphEdge> = Vec::new();
        let mut i: usize = 0;
        while i < edges.len()
            invariant
                i <= edges@.len(),
                src == edge_ref_views(edges@),
                edge_ref_views(out@) == filter_kinds(src.take(i as int), filter@, dependencies),
            decreases edges@.len() - i,
        {
            let e = edges[i];
            let ghost before = out@;
            if filter.allows(e.kind()) && (!dependencies || crate::graph::query::is_dependency_edge_kind(
                e.kind(),
            )) {
                out.push(e);
                assert(edge_ref_views(out@) =~= edge_ref_views(before).push(e@));
            }
            assert(src.take(i + 1).drop_last() =~= src.take(i as int));
            i = i + 1;
        }
        assert(src.take(i as int) =~= src);
        out
    }

    /// Returns direct downstream neighbor nodes in identifier order.
    pub fn downstream_neighbors(&self, node: &NodeId) -> (r: Vec<&'graph GraphNode>)
        ensures
            node_ref_views(r@) == neighbors_of(self@, node@, true, None),
    {
        self.neighbors(node, SemanticGraphTraversalDirection::Downstream, &SemanticGraphEdgeFilter::All)
    }

    /// Returns direct upstream neighbor nodes in identifier order.
    pub fn upstream_neighbors(&self, node: &NodeId) -> (r: Vec<&'graph GraphNode>)
        ensures
            node_ref_views(r@) == neighbors_of(self@, node@, false, None),
    {
        self.neighbors(node, SemanticGraphTraversalDirection::Upstream, &SemanticGraphEdgeFilter::All)
    }

    /// Returns direct downstream neighbors across edges of one kind.
    pub fn downstream_neighbors_by_kind(&self, node: &NodeId, kind: EdgeKind) -> (r: Vec<&'graph GraphNode>)
        ensures
            node_ref_views(r@) == neighbors_of(self@, node@, true, Some(seq![kind])),
    {
        self.neighbors(node, SemanticGraphTraversalDirection::Downstream, &SemanticGraphEdgeFilter::only(kind))
    }

    /// Returns direct upstream neighbors across edges of one kind.
    pub fn upstream_neighbors_by_kind(&self, node: &NodeId, kind: EdgeKind) -> (r: Vec<&'graph GraphNode>)
        ensures
            node_ref_views(r@) == neighbors_of(self@, node@, false, Some(seq![kind])),
    {
        self.neighbors(node, SemanticGraphTraversalDirection::Upstream, &SemanticGraphEdgeFilter::only(kind))
    }

    /// Returns direct neighbor nodes in a direction across the edges the
    /// filter accepts, without repeats, in identifier order.
    pub fn neighbors(
        &self,
        node: &NodeId,
        direction: SemanticGraphTraversalDirection,
        edge_filter: &SemanticGraphEdgeFilter,
    ) -> (r: Vec<&'graph GraphNode>)
        ensures
            node_ref_views(r@) == neighbors_of(self@, node@, is_downstream(direction), edge_filter@),
    {
        let downstream = direction == SemanticGraphTraversalDirection::Downstream;
        let edges = self.filtered_edges(node, downstream, edge_filter, false);
        sorted_nodes(self.far_nodes_of(&edges, downstream))
    }

    /// Direct relations in a direction across accepted edges, ordered by
    /// related node identifier and then edge identifier.
    fn relations(
        &self,
        node: &NodeId,
        direction: SemanticGraphTraversalDirection,
        filter: &SemanticGraphEdgeFilter,
        dependencies: bool,
    ) -> (r: Vec<SemanticGraphRelation<'graph>>)
        ensures
            relation_views(r@) == relations_of(self@, node@, direction, filter@, dependencies),
    {
        let downstream = direction == SemanticGraphTraversalDirection::Downstream;
        let edges = self.filtered_edges(node, downstream, filter, dependencies);
        let ghost src = edge_ref_views(edges@);
        let mut items: Vec<Keyed<SemanticGraphRelation<'graph>>> = Vec::new();
        let mut i: usize = 0;
        while i < edges.len()
            invariant
                i <= edges@.len(),
                src == edge_ref_views(edges@),
                downstream == is_downstream(direction),
                keyed_views(items@) == relation_entries(self@.nodes, src.take(i as int), direction),
            decreases edges@.len() - i,
        {
            let e = edges[i];
            let far = if downstream {
                e.target()
            } else {
                e.source()
            };
            let ghost before = items@;
            match self.graph.node(far) {
                Some(n) => {
                    let id = edge_id(e.source().as_str(), e.target().as_str(), e.kind());
                    let second = id.as_str().to_owned();
                    let relation = SemanticGraphRelation { node: n, edge: e, edge_id: id, direction };
                    items.push(Keyed { first: n.id().as_str().to_owned(), second, value: relation });
                    assert(keyed_views(items@) =~= keyed_views(before).push(
                        ((n@.id, edge_key(e@).0), (n@, e@, edge_key(e@).0, direction)),
                    ));
                },
                None => {},
            }
            assert(src.take(i + 1).drop_last() =~= src.take(i as int));
            i = i + 1;
        }
        assert(src.take(i as int) =~= src);
        let r = into_values(sort_stable(items));
        assert(relation_views(r@) =~= r@.map_values(|v: SemanticGraphRelation<'graph>| v@));
        r
    }

    /// Returns direct dependencies of `node`: outgoing calls, references,
    /// reads, writes and depends-on edges; ownership edges are excluded.
    pub fn direct_dependencies(&self, node: &NodeId) -> (r: Vec<SemanticGraphRelation<'graph>>)
        ensures
            relation_views(r@) == relations_of(
                self@,
                node@,
                SemanticGraphTraversalDirection::Downstream,
                None,
                true,
            ),
    {
        self.relations(node, SemanticGraphTraversalDirection::Downstream, &SemanticGraphEdgeFilter::All, true)
    }

    /// Returns direct dependencies of `node` across edges of one kind.
    pub fn direct_dependencies_by_kind(&self, node: &NodeId, kind: EdgeKind) -> (r: Vec<
        SemanticGraphRelation<'graph>,
    >)
        ensures
            relation_views(r@) == relations_of(
                self@,
                node@,
                SemanticGraphTraversalDirection::Downstream,
                Some(seq![kind]),
                true,
            ),
    {
        self.relations(
            node,
            SemanticGraphTraversalDirection::Downstream,
            &SemanticGraphEdgeFilter::only(kind),
            true,
        )
    }

    /// Returns direct dependencies of `node` across the edges the filter accepts.
    pub fn direct_dependencies_with_filter(&self, node: &NodeId, edge_filter: &SemanticGraphEdgeFilter) -> (r:
        Vec<SemanticGraphRelation<'graph>>)
        ensures
            relation_views(r@) == relations_of(
                self@,
                node@,
                SemanticGraphTraversalDirection::Downstream,
                edge_filter@,
                true,
            ),
    {
        self.relations(node, SemanticGraphTraversalDirection::Downstream, edge_filter, true)
    }

    /// Returns direct usages of `node`: incoming dependency edges.
    pub fn direct_usages(&self, node: &NodeId) -> (r: Vec<SemanticGraphRelation<'graph>>)
        ensures
            relation_views(r@) == relations_of(
                self@,
                node@,
                SemanticGraphTraversalDirection::Upstream,
                None,
                true,
            ),
    {
        self.relations(node, SemanticGraphTraversalDirection::Upstream, &SemanticGraphEdgeFilter::All, true)
    }

    /// Returns direct usages of `node` across edges of one kind.
    pub fn direct_usages_by_kind(&self, node: &NodeId, kind: EdgeKind) -> (r: Vec<SemanticGraphRelation<'graph>>)
        ensures
            relation_views(r@) == relations_of(
                self@,
                node@,
                SemanticGraphTraversalDirection::Upstream,
                Some(seq![kind]),
                true,
            ),
    {
        self.relations(
            node,
            SemanticGraphTraversalDirection::Upstream,
            &SemanticGraphEdgeFilter::only(kind),
            true,
        )
    }

    /// Returns direct usages of `node` across the edges the filter accepts.
    pub fn direct_usages_with_filter(&self, node: &NodeId, edge_filter: &SemanticGraphEdgeFilter) -> (r: Vec<
        SemanticGraphRelation<'graph>,
    >)
        ensures
            relation_views(r@) == relations_of(
                self@,
                node@,
                SemanticGraphTraversalDirection::Upstream,
                edge_filter@,
                true,
            ),
    {
        self.relations(node, SemanticGraphTraversalDirection::Upstream, edge_filter, true)
    }

    /// Neighbor steps from `current` in a direction across accepted edges,
    /// ordered by neighbor identifier and then edge identifier.
    fn traversal_neighbors(
        &self,
        current: &EntityId,
        direction: SemanticGraphTraversalDirection,
        filter: &SemanticGraphEdgeFilter,
    ) -> (r: Vec<(EntityId, EdgeId)>)
        ensures
            r@.map_values(|p: (EntityId, EdgeId)| p@) == traversal_steps(self@, current@, direction, filter@),
    {
        let downstream = direction == SemanticGraphTraversalDirection::Downstream;
        let node = NodeId::new(current.as_str());
        let edges = self.filtered_edges(&node, downstream, filter, false);
        let ghost src = edge_ref_views(edges@);
        let mut items: Vec<Keyed<(EntityId, EdgeId)>> = Vec::new();
        let mut i: usize = 0;
        while i < edges.len()
            invariant
                i <= edges@.len(),
                src == edge_ref_views(edges@),
                downstream == is_downstream(direction),
                keyed_views(items@) == step_entries(self@.nodes, src.take(i as int), downstream),
            decreases edges@.len() - i,
        {
            let e = edges[i];
            let far = if downstream {
                e.target()
            } else {
                e.source()
            };
            let ghost before = items@;
            if self.graph.node(far).is_some() {
                let id = edge_id(e.source().as_str(), e.target().as_str(), e.kind());
                let second = id.as_str().to_owned();
                items.push(Keyed { first: far.as_str().to_owned(), second, value: (far.duplicate(), id) });
                assert(keyed_views(items@) =~= keyed_views(before).push(
                    ((far@, edge_key(e@).0), (far@, edge_key(e@).0)),
                ));
            }
            assert(src.take(i + 1).drop_last() =~= src.take(i as int));
            i = i + 1;
        }
        assert(src.take(i as int) =~= src);
        into_values(sort_stable(items))
    }

    /// Performs bounded deterministic breadth-first traversal from `start`.
    /// Each node is reported at most once, never deeper than the maximum
    /// depth; the start node is marked visited before expansion, so cycles and
    /// self-loops cannot make traversal unbounded.
    pub fn traverse(&self, start: &NodeId, options: &SemanticGraphTraversalOptions) -> (r: Vec<
        SemanticGraphTraversalNode,
    >)
        ensures
            node_at(self@, start@) is None ==> r@.len() == 0,
            node_at(self@, start@) is Some ==> exists|n: nat|
                #![trigger bfs_run(self@, options@, bfs_start(start@, options@), n)]
                bfs_run(self@, options@, bfs_start(start@, options@), n).1.len() == 0
                    && traversal_views(r@) == bfs_run(self@, options@, bfs_start(start@, options@), n).2,
            forall|i: int, j: int| 0 <= i < j < r@.len() ==> (#[trigger] r@[i])@.0 != (#[trigger] r@[j])@.0,
            forall|i: int| 0 <= i < r@.len() ==> (#[trigger] r@[i])@.1 <= options@.1,
    {
        proof {
            use_type_invariant(self.graph);
        }
        let start_id = match entity_of(start) {
            Some(e) => e,
            None => {
                return Vec::new();
            },
        };
        if self.graph.node(&start_id).is_none() {
            return Vec::new();
        }
        let ghost g = self@;
        let ghost o = options@;
        let ghost total = g.nodes.len();
        let direction = options.direction();
        let max_depth = options.max_depth();
        let filter = options.edge_filter();
        let mut visited: Vec<EntityId> = Vec::new();
        visited.push(start_id.duplicate());
        let mut queue: Vec<(EntityId, usize)> = Vec::new();
        queue.push((start_id, 0));
        let mut head: usize = 0;
        let mut results: Vec<SemanticGraphTraversalNode> = Vec::new();
        if options.include_start() {
            results.push(SemanticGraphTraversalNode::new(start.duplicate(), 0, None));
        }
        let ghost mut steps: nat = 0;
        proof {
            assert(visited@.map_values(|x: EntityId| x@) =~= seq![start@]);
            assert(queue@.map_values(|p: (EntityId, usize)| p@).skip(0) =~= seq![(start@, 0usize)]);
            assert(traversal_views(results@) =~= bfs_start(start@, o).2);
            assert(seq![start@].no_duplicates());
        }
        while head < queue.len()
            invariant
                g == self@,
                o == options@,
                graph_wf(g),
                total == g.nodes.len(),
                direction == o.0,
                max_depth == o.1,
                filter@ == o.2,
                head <= queue@.len(),
                visited@.len() >= 1,
                node_at(g, start@) is Some,
                (
                    visited@.map_values(|x: EntityId| x@),
                    queue@.map_values(|p: (EntityId, usize)| p@).skip(head as int),
                    traversal_views(results@),
                ) == bfs_run(g, o, bfs_start(start@, o), steps),
                visited@.map_values(|x: EntityId| x@).no_duplicates(),
                forall|k: int| 0 <= k < visited@.len() ==> lookup(g.nodes, (#[trigger] visited@[k])@) is Some,
                traversal_views(results@).map_values(|t: TraversalView| t.0) == (if o.3 {
                    visited@.map_values(|x: EntityId| x@)
                } else {
                    visited@.map_values(|x: EntityId| x@).drop_first()
                }),
                forall|k: int| 0 <= k < queue@.len() ==> (#[trigger] queue@[k]).1 <= max_depth,
                forall|k: int| 0 <= k < results@.len() ==> (#[trigger] results@[k])@.1 <= max_depth,
                visited@.len() <= total,
            decreases 2 * (total - visited@.len()) + (queue@.len() - head),
        {
            let ghost st = bfs_run(g, o, bfs_start(start@, o), steps);
            let current = queue[head].0.duplicate();
            let depth = queue[head].1;
            let ghost qv = queue@.map_values(|p: (EntityId, usize)| p@);
            assert(st.1[0] == (current@, depth));
            head = head + 1;
            let ghost popped = (st.0, st.1.drop_first(), st.2);
            assert(qv.skip(head as int) =~= st.1.drop_first());
            if depth != max_depth {
                let ns = self.traversal_neighbors(&current, direction, filter);
                let ghost nv = ns@.map_values(|p: (EntityId, EdgeId)| p@);
                proof {
                    lemma_traversal_steps_present(g, current@, direction, o.2);
                }
                let ghost v0 = visited@.len();
                let ghost q0 = queue@.len();
                let mut i: usize = 0;
                while i < ns.len()
                    invariant
                        g == self@,
                        o == options@,
                        graph_wf(g),
                        total == g.nodes.len(),
                        max_depth == o.1,
                        depth < max_depth,
                        i <= ns@.len(),
                        nv == ns@.map_values(|p: (EntityId, EdgeId)| p@),
                        nv == traversal_steps(g, current@, direction, o.2),
                        forall|k: int| 0 <= k < nv.len() ==> lookup(g.nodes, (#[trigger] nv[k]).0) is Some,
                        head <= queue@.len(),
                        visited@.len() >= 1,
                        (
                            visited@.map_values(|x: EntityId| x@),
                            queue@.map_values(|p: (EntityId, usize)| p@).skip(head as int),
                            traversal_views(results@),
                        ) == absorb(popped, nv.take(i as int), depth),
                        visited@.map_values(|x: EntityId| x@).no_duplicates(),
                        forall|k: int| 0 <= k < visited@.len() ==> lookup(g.nodes, (#[trigger] visited@[k])@) is Some,
                        traversal_views(results@).map_values(|t: TraversalView| t.0) == (if o.3 {
                            visited@.map_values(|x: EntityId| x@)
                        } else {
                            visited@.map_values(|x: EntityId| x@).drop_first()
                        }),
                        forall|k: int| 0 <= k < queue@.len() ==> (#[trigger] queue@[k]).1 <= max_depth,
                        forall|k: int| 0 <= k < results@.len() ==> (#[trigger] results@[k])@.1 <= max_depth,
                        visited@.len() <= total,
                        visited@.len() - v0 == queue@.len() - q0,
                        v0 <= visited@.len(),
                    decreases ns@.len() - i,
                {
                    let candidate = &ns[i].0;
                    let edge = &ns[i].1;
                    let ghost vv = visited@.map_values(|x: EntityId| x@);
                    let ghost qq = queue@.map_values(|p: (EntityId, usize)| p@);
                    let ghost rv = traversal_views(results@);
                    assert(nv[i as int] == (candidate@, edge@));
                    assert(nv.take(i + 1).drop_last() =~= nv.take(i as int));
                    let mut seen = false;
                    let mut k: usize = 0;
                    while k < visited.len()
                        invariant
                            k <= visited@.len(),
                            vv == visited@.map_values(|x: EntityId| x@),
                            seen == (exists|j: int| 0 <= j < k && vv[j] == candidate@),
                        decreases visited@.len() - k,
                    {
                        assert(vv[k as int] == visited@[k as int]@);
                        if text_equal(visited[k].as_str(), candidate.as_str()) {
                            seen = true;
                        }
                        k = k + 1;
                    }
                    assert(seen == vv.contains(candidate@));
                    if !seen {
                        let next = depth + 1;
                        visited.push(candidate.duplicate());
                        queue.push((candidate.duplicate(), next));
                        results.push(
                            SemanticGraphTraversalNode::new(
                                NodeId::new(candidate.as_str()),
                                next,
                                Some(edge.duplicate()),
                            ),
                        );
                        proof {
                            let vv2 = visited@.map_values(|x: EntityId| x@);
                            assert(vv2 =~= vv.push(candidate@));
                            assert(queue@.map_values(|p: (EntityId, usize)| p@).skip(head as int) =~= qq.skip(
                                head as int,
                            ).push((candidate@, next)));
                            assert(traversal_views(results@) =~= rv.push((candidate@, next, Some(edge@))));
                            assert(traversal_views(results@).map_values(|t: TraversalView| t.0) =~= rv.map_values(
                                |t: TraversalView| t.0,
                            ).push(candidate@));
                            if !o.3 {
                                assert(vv2.drop_first() =~= vv.drop_first().push(candidate@));
                            }
                            assert(lookup(g.nodes, nv[i as int].0) is Some);
                            assert forall|a: int, b: int|
                                0 <= a < vv2.len() && 0 <= b < vv2.len() && a != b implies vv2[a] != vv2[b] by {
                                if a == vv.len() as int {
                                    assert(vv2[b] == vv[b]);
                                } else if b == vv.len() as int {
                                    assert(vv2[a] == vv[a]);
                                }
                            }
                            assert forall|j: int| 0 <= j < visited@.len() implies lookup(
                                g.nodes,
                                (#[trigger] visited@[j])@,
                            ) is Some by {
                                if j < vv.len() {
                                    assert(visited@[j]@ == vv[j]);
                                }
                            }
                            assert forall|j: int| 0 <= j < visited@.len() implies lookup(
                                g.nodes,
                                #[trigger] vv2[j],
                            ) is Some by {
                                assert(visited@[j]@ == vv2[j]);
                            }
                            lemma_distinct_ids_bounded(vv2, g.nodes);
                        }
                    }
                    i = i + 1;
                }
                assert(nv.take(ns@.len() as int) =~= nv);
            }
            proof {
                steps = steps + 1;
                lemma_bfs_run_step(g, o, bfs_start(start@, o), (steps - 1) as nat);
            }
        }
        proof {
            let vv = visited@.map_values(|x: EntityId| x@);
            let rv = traversal_views(results@);
            assert forall|i: int, j: int| 0 <= i < j < results@.len() implies (#[trigger] results@[i])@.0 != (
            #[trigger] results@[j])@.0 by {
                assert(rv.map_values(|t: TraversalView| t.0)[i] == results@[i]@.0);
                assert(rv.map_values(|t: TraversalView| t.0)[j] == results@[j]@.0);
                if !o.3 {
                    assert(vv.drop_first()[i] == vv[i + 1]);
                    assert(vv.drop_first()[j] == vv[j + 1]);
                }
            }
        }
        results
    }
}
} // verus!
