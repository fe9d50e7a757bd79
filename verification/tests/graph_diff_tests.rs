use oneagent::entity::{EntityId, EntityName};
use oneagent::graph::diff::{EdgeModifiedAspect, GraphChangeKind, NodeModifiedAspect, SemanticGraphDiff};
use oneagent::graph::edge::GraphEdge;
use oneagent::graph::kind::{EdgeKind, NodeKind};
use oneagent::graph::node::GraphNode;
use oneagent::graph::provenance::{Confidence, FactOrigin, ProducerId, Provenance, ResolutionState};
use oneagent::graph::semantic_graph::SemanticGraph;

fn id(value: &str) -> EntityId {
    EntityId::new(value).expect("identifier must be valid")
}

fn name(value: &str) -> EntityName {
    EntityName::new(value).expect("name must be valid")
}

fn provenance(source: &str) -> Provenance {
    Provenance::new(
        Some(id(source)),
        ProducerId::new("oneagent.graph.diff.tests"),
        FactOrigin::Declared,
        Confidence::Exact,
        ResolutionState::NotApplicable,
    )
}

fn node(id_value: &str, name_value: &str, kind: NodeKind) -> GraphNode {
    GraphNode::new(id(id_value), name(name_value), kind)
}

fn node_with_provenance(id_value: &str, name_value: &str, source: &str) -> GraphNode {
    GraphNode::new_with_provenance(id(id_value), name(name_value), NodeKind::Module, vec![provenance(source)])
}

fn graph_with_node(node: GraphNode) -> SemanticGraph {
    let mut graph = SemanticGraph::new();
    graph.insert_node(node);
    graph
}

fn graph_with_edge(edge: GraphEdge) -> SemanticGraph {
    let mut graph = SemanticGraph::new();
    graph.insert_node(node("source", "Source", NodeKind::Module));
    graph.insert_node(node("target", "Target", NodeKind::Function));
    graph.insert_node(node("other", "Other", NodeKind::Procedure));
    graph.insert_edge(edge).expect("edge must be valid");
    graph
}

#[test]
fn empty_graphs_create_empty_diff() {
    let old = SemanticGraph::new();
    let new = SemanticGraph::new();
    let diff = SemanticGraphDiff::between(&old, &new);

    assert!(diff.is_empty());
    assert_eq!(diff.summary().total_changes(), 0);
}

#[test]
fn identical_graphs_create_empty_diff() {
    let graph = graph_with_node(node("module.sales", "Sales", NodeKind::Module));

    let diff = graph.diff(&graph);

    assert!(diff.is_empty());
}

#[test]
fn detects_added_and_removed_nodes_directionally() {
    let old = graph_with_node(node("node.old", "Old", NodeKind::Module));
    let new = graph_with_node(node("node.new", "New", NodeKind::Module));
    let forward = old.diff(&new);
    let reverse = new.diff(&old);

    assert_eq!(forward.added_nodes().len(), 1);
    assert_eq!(forward.added_nodes()[0].id().as_str(), "node.new");
    assert_eq!(forward.removed_nodes().len(), 1);
    assert_eq!(forward.removed_nodes()[0].id().as_str(), "node.old");
    assert_eq!(reverse.added_nodes()[0].id().as_str(), "node.old");
    assert_eq!(reverse.removed_nodes()[0].id().as_str(), "node.new");
}

#[test]
fn detects_node_semantic_content_change() {
    let old = graph_with_node(node("node.same", "OldName", NodeKind::Module));
    let new = graph_with_node(node("node.same", "NewName", NodeKind::Procedure));

    let diff = old.diff(&new);
    let change = &diff.modified_nodes()[0];

    assert_eq!(change.kind(), GraphChangeKind::Modified);
    assert_eq!(change.modified_aspects(), &[NodeModifiedAspect::SemanticContent]);
    assert_eq!(change.old_state().expect("old node must exist").name().as_str(), "OldName");
    assert_eq!(change.new_state().expect("new node must exist").name().as_str(), "NewName");
}

#[test]
fn detects_node_provenance_and_combined_change() {
    let old = graph_with_node(node_with_provenance("node.same", "Name", "source.old"));
    let provenance_only = graph_with_node(node_with_provenance("node.same", "Name", "source.new"));
    let combined = graph_with_node(GraphNode::new_with_provenance(
        id("node.same"),
        name("Renamed"),
        NodeKind::Function,
        vec![provenance("source.new")],
    ));

    let provenance_diff = old.diff(&provenance_only);
    let combined_diff = old.diff(&combined);

    assert_eq!(provenance_diff.modified_nodes()[0].modified_aspects(), &[NodeModifiedAspect::Provenance]);
    assert_eq!(
        combined_diff.modified_nodes()[0].modified_aspects(),
        &[NodeModifiedAspect::SemanticContent, NodeModifiedAspect::Provenance]
    );
}

#[test]
fn detects_added_removed_and_modified_edges() {
    let old_edge =
        GraphEdge::new_with_provenance(id("source"), id("target"), EdgeKind::Calls, vec![provenance("edge.old")]);
    let new_edge =
        GraphEdge::new_with_provenance(id("source"), id("target"), EdgeKind::Calls, vec![provenance("edge.new")]);
    let old = graph_with_edge(old_edge);
    let new = graph_with_edge(new_edge);

    let diff = old.diff(&new);
    let change = &diff.modified_edges()[0];

    assert_eq!(change.kind(), GraphChangeKind::Modified);
    assert_eq!(change.modified_aspects(), &[EdgeModifiedAspect::Provenance]);
    assert_eq!(change.source().as_str(), "source");
    assert_eq!(change.target().as_str(), "target");
    assert_eq!(change.edge_kind(), EdgeKind::Calls);
    assert_eq!(diff.summary().edges_modified(), 1);
}

#[test]
fn edge_identity_change_is_removed_and_added() {
    let old = graph_with_edge(GraphEdge::new(id("source"), id("target"), EdgeKind::Calls));
    let new = graph_with_edge(GraphEdge::new(id("source"), id("other"), EdgeKind::Calls));

    let diff = old.diff(&new);

    assert_eq!(diff.removed_edges().len(), 1);
    assert_eq!(diff.added_edges().len(), 1);
    assert!(diff.modified_edges().is_empty());
    assert_eq!(diff.summary().edges_removed(), 1);
    assert_eq!(diff.summary().edges_added(), 1);
}

#[test]
fn changes_are_sorted_deterministically() {
    let mut old = SemanticGraph::new();
    let mut new = SemanticGraph::new();

    old.insert_node(node("node.c", "C", NodeKind::Module));
    old.insert_node(node("node.a", "A", NodeKind::Module));
    new.insert_node(node("node.d", "D", NodeKind::Module));
    new.insert_node(node("node.b", "B", NodeKind::Module));

    let diff = old.diff(&new);

    assert_eq!(diff.removed_nodes()[0].id().as_str(), "node.a");
    assert_eq!(diff.removed_nodes()[1].id().as_str(), "node.c");
    assert_eq!(diff.added_nodes()[0].id().as_str(), "node.b");
    assert_eq!(diff.added_nodes()[1].id().as_str(), "node.d");
}

#[test]
fn insertion_order_does_not_affect_diff() {
    let mut old_left = SemanticGraph::new();
    let mut old_right = SemanticGraph::new();
    let mut new_left = SemanticGraph::new();
    let mut new_right = SemanticGraph::new();

    old_left.insert_node(node("node.a", "A", NodeKind::Module));
    old_left.insert_node(node("node.b", "B", NodeKind::Procedure));
    old_right.insert_node(node("node.b", "B", NodeKind::Procedure));
    old_right.insert_node(node("node.a", "A", NodeKind::Module));
    new_left.insert_node(node("node.a", "A2", NodeKind::Module));
    new_left.insert_node(node("node.c", "C", NodeKind::Function));
    new_right.insert_node(node("node.c", "C", NodeKind::Function));
    new_right.insert_node(node("node.a", "A2", NodeKind::Module));

    assert_eq!(old_left.diff(&new_left), old_right.diff(&new_right));
}

#[test]
fn provenance_order_does_not_affect_diff() {
    let left = graph_with_node(GraphNode::new_with_provenance(
        id("node.same"),
        name("Name"),
        NodeKind::Module,
        vec![provenance("source.a"), provenance("source.b")],
    ));
    let right = graph_with_node(GraphNode::new_with_provenance(
        id("node.same"),
        name("Name"),
        NodeKind::Module,
        vec![provenance("source.b"), provenance("source.a")],
    ));

    assert!(left.diff(&right).is_empty());
}

#[test]
fn summary_counts_all_changes() {
    let old = graph_with_node(node("node.old", "Old", NodeKind::Module));
    let new = graph_with_node(node("node.new", "New", NodeKind::Function));

    let summary = old.diff(&new).summary();

    assert_eq!(summary.nodes_added(), 1);
    assert_eq!(summary.nodes_removed(), 1);
    assert_eq!(summary.total_changes(), 2);
}

#[test]
fn repeated_provenance_is_normalized_away() {
    let left = graph_with_node(GraphNode::new_with_provenance(
        id("node.same"),
        name("Name"),
        NodeKind::Module,
        vec![provenance("source.a"), provenance("source.a")],
    ));
    let right = graph_with_node(node_with_provenance("node.same", "Name", "source.a"));

    let diff = left.diff(&right);
    assert!(diff.is_empty());

    let changed = left.diff(&graph_with_node(node_with_provenance("node.same", "Name", "source.b")));
    let snapshot = changed.modified_nodes()[0].old_state().expect("old state");
    assert_eq!(snapshot.provenance().len(), 1);
    assert_eq!(changed.modified_nodes()[0].node_kind(), NodeKind::Module);
}

#[test]
fn removed_edge_keeps_old_snapshot() {
    let old = graph_with_edge(GraphEdge::new(id("source"), id("target"), EdgeKind::Calls));
    let new = graph_with_edge(GraphEdge::new(id("source"), id("other"), EdgeKind::Reads));

    let diff = old.diff(&new);
    let removed = &diff.removed_edges()[0];
    let added = &diff.added_edges()[0];

    assert_eq!(removed.kind(), GraphChangeKind::Removed);
    assert!(removed.new_state().is_none());
    assert_eq!(
        removed.old_state().expect("old state").id().as_str(),
        "edge:source#6:source;target#6:target;kind:calls"
    );
    assert_eq!(added.kind(), GraphChangeKind::Added);
    assert_eq!(added.edge_kind(), EdgeKind::Reads);
    assert_eq!(added.target().as_str(), "other");
    assert!(added.old_state().is_none());
}
