use oneagent::entity::{EntityId, EntityName};
use oneagent::graph::diff::SemanticGraphDiff;
use oneagent::graph::edge::GraphEdge;
use oneagent::graph::impact::{
    ImpactAnalysisError, ImpactCompleteness, ImpactNodeAvailability, ImpactNodeStatus, ImpactPropagationDirection,
    ImpactReasonKind, ImpactSnapshot, OwnershipImpactMode, ProvenanceImpactMode, SemanticImpactAnalyzer,
    SemanticImpactOptions,
};
use oneagent::graph::kind::{EdgeKind, MetadataKind, NodeKind};
use oneagent::graph::node::GraphNode;
use oneagent::graph::provenance::{Confidence, FactOrigin, ProducerId, Provenance, ResolutionState};
use oneagent::graph::semantic_graph::SemanticGraph;

fn id(value: &str) -> EntityId {
    EntityId::new(value).expect("identifier must be valid")
}

fn name(value: &str) -> EntityName {
    EntityName::new(value).expect("name must be valid")
}

fn node(id_value: &str, name_value: &str, kind: NodeKind) -> GraphNode {
    GraphNode::new(id(id_value), name(name_value), kind)
}

fn edge(source: &str, target: &str, kind: EdgeKind) -> GraphEdge {
    GraphEdge::new(id(source), id(target), kind)
}

fn provenance(source: &str) -> Provenance {
    Provenance::new(
        Some(id(source)),
        ProducerId::new("oneagent.graph.impact.tests"),
        FactOrigin::Declared,
        Confidence::Exact,
        ResolutionState::NotApplicable,
    )
}

/// `c` calls `a`, `a` calls `b`; `b` has the given name.
fn call_chain(b_name: &str) -> SemanticGraph {
    let mut graph = SemanticGraph::new();
    graph.insert_node(node("a", "A", NodeKind::Module));
    graph.insert_node(node("b", b_name, NodeKind::Function));
    graph.insert_node(node("c", "C", NodeKind::Procedure));
    graph.insert_edge(edge("a", "b", EdgeKind::Calls)).expect("edge must be valid");
    graph.insert_edge(edge("c", "a", EdgeKind::Calls)).expect("edge must be valid");
    graph
}

fn ids(result: &oneagent::graph::impact::SemanticImpactResult) -> Vec<String> {
    result.affected_nodes().iter().map(|n| n.node_id().as_str().to_owned()).collect()
}

#[test]
fn modified_node_propagates_to_usages_within_depth() {
    let previous = call_chain("B");
    let current = call_chain("Renamed");
    let diff = previous.diff(&current);
    assert_eq!(diff.modified_nodes().len(), 1);

    let result = SemanticImpactAnalyzer::analyze(&previous, &current, &diff, &SemanticImpactOptions::new(1))
        .expect("analysis must succeed");

    assert_eq!(ids(&result), vec!["a".to_owned(), "b".to_owned()]);
    let b = &result.affected_nodes()[1];
    assert_eq!(b.status(), ImpactNodeStatus::DirectlyChanged);
    assert_eq!(b.availability(), ImpactNodeAvailability::Both);
    assert_eq!(b.depth(), 0);
    assert_eq!(b.node_kind(), Some(NodeKind::Function));
    assert_eq!(b.reasons().len(), 2);
    assert_eq!(b.reasons()[0].kind(), ImpactReasonKind::NodeModified);
    assert_eq!(b.reasons()[0].snapshot(), ImpactSnapshot::Previous);
    assert_eq!(b.reasons()[1].snapshot(), ImpactSnapshot::Current);

    let a = &result.affected_nodes()[0];
    assert_eq!(a.status(), ImpactNodeStatus::TransitivelyAffected);
    assert_eq!(a.depth(), 1);
    assert_eq!(a.reasons().len(), 2);
    let primary = a.primary_reason().expect("reason must exist");
    assert_eq!(primary.kind(), ImpactReasonKind::DependencyPropagation);
    assert_eq!(primary.propagation(), Some(ImpactPropagationDirection::DependencyToUsage));
    assert_eq!(primary.source_node().map(|n| n.as_str()), Some("b"));
    assert_eq!(primary.edge_kind(), Some(EdgeKind::Calls));
    assert_eq!(primary.depth(), 1);

    let summary = result.summary();
    assert_eq!(summary.seed_node_changes(), 1);
    assert_eq!(summary.seed_edge_changes(), 0);
    assert_eq!(summary.directly_changed_nodes(), 1);
    assert_eq!(summary.transitively_affected_nodes(), 1);
    assert_eq!(summary.removed_nodes(), 0);
    assert_eq!(summary.previous_only_nodes(), 0);
    assert_eq!(summary.current_nodes(), 2);
    assert_eq!(summary.max_reached_depth(), 1);
    assert_eq!(summary.total_affected_nodes(), 2);
    assert_eq!(summary.requested_max_depth(), 1);
    assert_eq!(result.completeness(), ImpactCompleteness::CompleteWithinRequestedDepth);
}

#[test]
fn deeper_limit_reaches_transitive_usages() {
    let previous = call_chain("B");
    let current = call_chain("Renamed");
    let diff = previous.diff(&current);

    let result = SemanticImpactAnalyzer::analyze(&previous, &current, &diff, &SemanticImpactOptions::new(5))
        .expect("analysis must succeed");

    assert_eq!(ids(&result), vec!["a".to_owned(), "b".to_owned(), "c".to_owned()]);
    assert_eq!(result.affected_nodes()[2].depth(), 2);
    assert_eq!(result.summary().max_reached_depth(), 2);
    assert_eq!(result.summary().transitively_affected_nodes(), 2);
}

#[test]
fn zero_depth_keeps_only_seeds() {
    let previous = call_chain("B");
    let current = call_chain("Renamed");
    let diff = previous.diff(&current);

    let result = SemanticImpactAnalyzer::analyze(&previous, &current, &diff, &SemanticImpactOptions::new(0))
        .expect("analysis must succeed");

    assert_eq!(ids(&result), vec!["b".to_owned()]);
    assert_eq!(result.summary().max_reached_depth(), 0);
}

#[test]
fn removed_node_and_edge_are_analyzed_in_previous_snapshot() {
    let mut previous = SemanticGraph::new();
    previous.insert_node(node("a", "A", NodeKind::Module));
    previous.insert_node(node("b", "B", NodeKind::Function));
    previous.insert_edge(edge("a", "b", EdgeKind::Calls)).expect("edge must be valid");
    let mut current = SemanticGraph::new();
    current.insert_node(node("a", "A", NodeKind::Module));
    let diff = previous.diff(&current);
    assert_eq!(diff.removed_nodes().len(), 1);
    assert_eq!(diff.removed_edges().len(), 1);

    let result = SemanticImpactAnalyzer::analyze(&previous, &current, &diff, &SemanticImpactOptions::new(3))
        .expect("analysis must succeed");

    assert_eq!(ids(&result), vec!["a".to_owned(), "b".to_owned()]);
    let a = &result.affected_nodes()[0];
    assert_eq!(a.status(), ImpactNodeStatus::DirectlyChanged);
    assert_eq!(a.availability(), ImpactNodeAvailability::Both);
    assert_eq!(a.depth(), 0);
    let b = &result.affected_nodes()[1];
    assert_eq!(b.status(), ImpactNodeStatus::Removed);
    assert_eq!(b.availability(), ImpactNodeAvailability::PreviousOnly);
    assert_eq!(b.node_kind(), Some(NodeKind::Function));

    let summary = result.summary();
    assert_eq!(summary.seed_node_changes(), 1);
    assert_eq!(summary.seed_edge_changes(), 1);
    assert_eq!(summary.directly_changed_nodes(), 1);
    assert_eq!(summary.removed_nodes(), 1);
    assert_eq!(summary.transitively_affected_nodes(), 0);
    assert_eq!(summary.previous_only_nodes(), 1);
    assert_eq!(summary.current_nodes(), 1);
}

#[test]
fn added_node_is_current_only() {
    let previous = SemanticGraph::new();
    let mut current = SemanticGraph::new();
    current.insert_node(node("n", "N", NodeKind::Query));
    let diff = previous.diff(&current);

    let result = SemanticImpactAnalyzer::analyze(&previous, &current, &diff, &SemanticImpactOptions::default())
        .expect("analysis must succeed");

    assert_eq!(ids(&result), vec!["n".to_owned()]);
    let n = &result.affected_nodes()[0];
    assert_eq!(n.availability(), ImpactNodeAvailability::CurrentOnly);
    assert_eq!(n.status(), ImpactNodeStatus::DirectlyChanged);
    assert_eq!(n.reasons()[0].kind(), ImpactReasonKind::NodeAdded);
    assert_eq!(result.summary().current_nodes(), 1);
}

#[test]
fn empty_diff_gives_empty_result() {
    let graph = call_chain("B");
    let diff = SemanticGraphDiff::between(&graph, &graph);

    let result = SemanticImpactAnalyzer::analyze(&graph, &graph, &diff, &SemanticImpactOptions::new(4))
        .expect("analysis must succeed");

    assert!(result.is_empty());
    assert_eq!(result.summary().total_affected_nodes(), 0);
    assert_eq!(result.summary().requested_max_depth(), 4);
}

#[test]
fn seed_missing_from_its_snapshot_is_an_error() {
    let previous = SemanticGraph::new();
    let mut current = SemanticGraph::new();
    current.insert_node(node("x", "X", NodeKind::Module));
    let diff = previous.diff(&current);
    let empty = SemanticGraph::new();

    let error = SemanticImpactAnalyzer::analyze(&previous, &empty, &diff, &SemanticImpactOptions::new(1))
        .expect_err("analysis must fail");

    assert!(matches!(
        &error,
        ImpactAnalysisError::MissingSeedNode { node, snapshot: ImpactSnapshot::Current } if node.as_str() == "x"
    ));
    assert_eq!(error.message(), "impact seed node `x` is missing in Current snapshot");
}

#[test]
fn edge_seed_missing_from_its_snapshot_is_an_error() {
    let mut previous = SemanticGraph::new();
    previous.insert_node(node("a", "A", NodeKind::Module));
    previous.insert_node(node("b", "B", NodeKind::Function));
    let mut current = SemanticGraph::new();
    current.insert_node(node("a", "A", NodeKind::Module));
    current.insert_node(node("b", "B", NodeKind::Function));
    current.insert_edge(edge("a", "b", EdgeKind::Calls)).expect("edge must be valid");
    let diff = previous.diff(&current);
    assert_eq!(diff.added_edges().len(), 1);

    let error = SemanticImpactAnalyzer::analyze(&previous, &previous, &diff, &SemanticImpactOptions::new(1))
        .expect_err("analysis must fail");

    match &error {
        ImpactAnalysisError::MissingSeedEdge { edge, snapshot } => {
            assert_eq!(*snapshot, ImpactSnapshot::Current);
            assert!(edge.as_str().starts_with("edge:source#1:a;target#1:b"));
        },
        other => panic!("unexpected error {other:?}"),
    }
    assert!(error.message().starts_with("impact seed edge `edge:source#1:a"));
}

/// `owner` contains `child`; `child` has the given name.
fn ownership(child_name: &str) -> SemanticGraph {
    let mut graph = SemanticGraph::new();
    graph.insert_node(node("owner", "Owner", NodeKind::Metadata(MetadataKind::Catalog)));
    graph.insert_node(node("owner.child", child_name, NodeKind::Attribute));
    graph.insert_edge(edge("owner", "owner.child", EdgeKind::Contains)).expect("edge must be valid");
    graph
}

#[test]
fn ownership_propagation_follows_the_mode() {
    let previous = ownership("Child");
    let current = ownership("Renamed");
    let diff = previous.diff(&current);

    let disabled = SemanticImpactAnalyzer::analyze(&previous, &current, &diff, &SemanticImpactOptions::new(2))
        .expect("analysis must succeed");
    assert_eq!(ids(&disabled), vec!["owner.child".to_owned()]);

    let options = SemanticImpactOptions::new(2).with_ownership_mode(OwnershipImpactMode::ChildToOwner);
    let upward = SemanticImpactAnalyzer::analyze(&previous, &current, &diff, &options).expect("analysis must succeed");
    assert_eq!(ids(&upward), vec!["owner".to_owned(), "owner.child".to_owned()]);
    let owner = &upward.affected_nodes()[0];
    assert_eq!(owner.node_kind(), Some(NodeKind::Metadata(MetadataKind::Catalog)));
    let reason = owner.primary_reason().expect("reason must exist");
    assert_eq!(reason.kind(), ImpactReasonKind::OwnershipPropagation);
    assert_eq!(reason.propagation(), Some(ImpactPropagationDirection::ChildToOwner));
    assert_eq!(reason.edge_kind(), Some(EdgeKind::Contains));

    let options = SemanticImpactOptions::new(2).with_ownership_mode(OwnershipImpactMode::OwnerToChild);
    let downward = SemanticImpactAnalyzer::analyze(&previous, &current, &diff, &options).expect("analysis must succeed");
    assert_eq!(ids(&downward), vec!["owner.child".to_owned()]);
}

fn provenance_graph(source: &str) -> SemanticGraph {
    let mut graph = SemanticGraph::new();
    graph.insert_node(node("a", "A", NodeKind::Module));
    graph.insert_node(GraphNode::new_with_provenance(
        id("b"),
        name("B"),
        NodeKind::Function,
        vec![provenance(source)],
    ));
    graph.insert_edge(edge("a", "b", EdgeKind::Calls)).expect("edge must be valid");
    graph
}

#[test]
fn provenance_only_changes_follow_the_provenance_mode() {
    let previous = provenance_graph("file.one");
    let current = provenance_graph("file.two");
    let diff = previous.diff(&current);
    assert_eq!(diff.modified_nodes().len(), 1);

    let direct = SemanticImpactAnalyzer::analyze(&previous, &current, &diff, &SemanticImpactOptions::new(3))
        .expect("analysis must succeed");
    assert_eq!(ids(&direct), vec!["b".to_owned()]);

    let options = SemanticImpactOptions::new(3).with_provenance_mode(ProvenanceImpactMode::Exclude);
    let excluded = SemanticImpactAnalyzer::analyze(&previous, &current, &diff, &options).expect("analysis must succeed");
    assert!(excluded.is_empty());

    let options = SemanticImpactOptions::new(3).with_provenance_mode(ProvenanceImpactMode::Propagate);
    let propagated =
        SemanticImpactAnalyzer::analyze(&previous, &current, &diff, &options).expect("analysis must succeed");
    assert_eq!(ids(&propagated), vec!["a".to_owned(), "b".to_owned()]);
}
