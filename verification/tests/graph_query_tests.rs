use oneagent::entity::{EntityId, EntityName};
use oneagent::graph::edge::GraphEdge;
use oneagent::graph::identity::{EdgeId, NodeId};
use oneagent::graph::kind::{EdgeKind, NodeKind};
use oneagent::graph::node::GraphNode;
use oneagent::graph::query::{SemanticGraphEdgeFilter, SemanticGraphTraversalDirection, SemanticGraphTraversalOptions};
use oneagent::graph::semantic_graph::SemanticGraph;
use oneagent::graph::semantic_query::SemanticGraphQuery;

fn id(value: &str) -> EntityId {
    EntityId::new(value).expect("identifier must be valid")
}

fn name(value: &str) -> EntityName {
    EntityName::new(value).expect("name must be valid")
}

fn sample_graph() -> SemanticGraph {
    let mut graph = SemanticGraph::new();
    graph.insert_node(GraphNode::new(id("a"), name("Module"), NodeKind::Module));
    graph.insert_node(GraphNode::new(id("b"), name("Post"), NodeKind::Procedure));
    graph.insert_node(GraphNode::new(id("c"), name("Total"), NodeKind::Function));
    graph.insert_node(GraphNode::new(id("d"), name("Post"), NodeKind::Query));
    for (source, target, kind) in [
        ("a", "b", EdgeKind::Contains),
        ("a", "c", EdgeKind::Contains),
        ("b", "c", EdgeKind::Calls),
        ("c", "a", EdgeKind::Calls),
        ("b", "d", EdgeKind::Reads),
        ("c", "d", EdgeKind::References),
    ] {
        graph.insert_edge(GraphEdge::new(id(source), id(target), kind)).expect("edge must be valid");
    }
    graph
}

fn ids(nodes: &[&GraphNode]) -> Vec<String> {
    nodes.iter().map(|node| node.id().as_str().to_owned()).collect()
}

#[test]
fn looks_up_nodes_by_stable_identifier() {
    let graph = sample_graph();
    let query = graph.query();

    assert_eq!(query.node(&NodeId::new("b")).map(GraphNode::kind), Some(NodeKind::Procedure));
    assert!(query.node(&NodeId::new("missing")).is_none());
    assert!(query.node(&NodeId::new("   ")).is_none());
    assert!(query.contains_node(&NodeId::new("d")));
    assert_eq!(query.node_by_entity_id(&id("c")).map(GraphNode::kind), Some(NodeKind::Function));
    assert_eq!(ids(&query.nodes()), vec!["a", "b", "c", "d"]);
    assert_eq!(ids(&query.nodes_by_kind(NodeKind::Query)), vec!["d"]);
    assert_eq!(ids(&query.nodes_by_name(&name("Post"))), vec!["b", "d"]);
    assert_eq!(ids(&query.nodes_by_name_and_kind(&name("Post"), NodeKind::Query)), vec!["d"]);
}

#[test]
fn edges_are_ordered_by_stable_edge_identifier() {
    let graph = sample_graph();
    let query = SemanticGraphQuery::new(&graph);
    let edges = query.edges();
    let listed: Vec<(&str, &str, EdgeKind)> =
        edges.iter().map(|edge| (edge.source().as_str(), edge.target().as_str(), edge.kind())).collect();

    assert_eq!(
        listed,
        vec![
            ("a", "b", EdgeKind::Contains),
            ("a", "c", EdgeKind::Contains),
            ("b", "c", EdgeKind::Calls),
            ("b", "d", EdgeKind::Reads),
            ("c", "a", EdgeKind::Calls),
            ("c", "d", EdgeKind::References),
        ]
    );
    assert_eq!(query.edges_by_kind(EdgeKind::Calls).len(), 2);
    assert_eq!(query.outgoing_edges(&NodeId::new("b")).len(), 2);
    assert_eq!(query.incoming_edges(&NodeId::new("d")).len(), 2);
    assert_eq!(query.outgoing_edges_by_kind(&NodeId::new("b"), EdgeKind::Reads).len(), 1);
    assert_eq!(query.incoming_edges_by_kind(&NodeId::new("c"), EdgeKind::Contains).len(), 1);
    assert!(query.outgoing_edges(&NodeId::new(" ")).is_empty());

    let wanted = SemanticGraphQuery::edge_id(&NodeId::new("b"), &NodeId::new("d"), EdgeKind::Reads);
    assert_eq!(wanted.as_str(), "edge:source#1:b;target#1:d;kind:reads");
    assert_eq!(query.edge(&wanted).map(GraphEdge::kind), Some(EdgeKind::Reads));
    assert!(query.contains_edge(&wanted));
    assert!(!query.contains_edge(&EdgeId::new("edge:source#1:d;target#1:b;kind:reads")));
}

#[test]
fn ownership_queries_follow_contains_edges() {
    let graph = sample_graph();
    let query = graph.query();

    assert_eq!(ids(&query.children(&NodeId::new("a"))), vec!["b", "c"]);
    assert_eq!(ids(&query.children_by_kind(&NodeId::new("a"), NodeKind::Function)), vec!["c"]);
    assert_eq!(ids(&query.owners(&NodeId::new("b"))), vec!["a"]);
    assert_eq!(query.owner(&NodeId::new("b")).map(|node| node.id().as_str()), Some("a"));
    assert!(query.owner(&NodeId::new("a")).is_none());
    assert_eq!(query.owner_edges(&NodeId::new("c")).len(), 1);
}

#[test]
fn neighbors_are_deduplicated_and_ordered() {
    let graph = sample_graph();
    let query = graph.query();

    assert_eq!(ids(&query.downstream_neighbors(&NodeId::new("b"))), vec!["c", "d"]);
    assert_eq!(ids(&query.upstream_neighbors(&NodeId::new("c"))), vec!["a", "b"]);
    assert_eq!(ids(&query.downstream_neighbors_by_kind(&NodeId::new("b"), EdgeKind::Reads)), vec!["d"]);
    assert_eq!(ids(&query.upstream_neighbors_by_kind(&NodeId::new("c"), EdgeKind::Calls)), vec!["b"]);
    assert_eq!(
        ids(&query.neighbors(
            &NodeId::new("c"),
            SemanticGraphTraversalDirection::Downstream,
            &SemanticGraphEdgeFilter::any(&[EdgeKind::Calls, EdgeKind::References]),
        )),
        vec!["a", "d"]
    );
}

#[test]
fn direct_relations_follow_dependency_edges_only() {
    let graph = sample_graph();
    let query = graph.query();

    let dependencies = query.direct_dependencies(&NodeId::new("b"));
    assert_eq!(dependencies.len(), 2);
    assert_eq!(dependencies[0].node().id().as_str(), "c");
    assert_eq!(dependencies[0].edge().kind(), EdgeKind::Calls);
    assert_eq!(dependencies[0].edge_id().as_str(), "edge:source#1:b;target#1:c;kind:calls");
    assert_eq!(dependencies[0].direction(), SemanticGraphTraversalDirection::Downstream);
    assert_eq!(dependencies[1].node().id().as_str(), "d");

    assert!(query.direct_dependencies(&NodeId::new("a")).is_empty());
    assert_eq!(query.direct_dependencies_by_kind(&NodeId::new("b"), EdgeKind::Reads).len(), 1);

    let usages = query.direct_usages(&NodeId::new("d"));
    assert_eq!(usages.len(), 2);
    assert_eq!(usages[0].node().id().as_str(), "b");
    assert_eq!(usages[1].node().id().as_str(), "c");
    assert_eq!(usages[1].direction(), SemanticGraphTraversalDirection::Upstream);
    assert_eq!(query.direct_usages_by_kind(&NodeId::new("d"), EdgeKind::References).len(), 1);
    assert_eq!(
        query
            .direct_usages_with_filter(&NodeId::new("a"), &SemanticGraphEdgeFilter::only(EdgeKind::Contains))
            .len(),
        0
    );
    assert_eq!(
        query
            .direct_dependencies_with_filter(&NodeId::new("c"), &SemanticGraphEdgeFilter::only(EdgeKind::Calls))
            .len(),
        1
    );
}

#[test]
fn traversal_is_breadth_first_bounded_and_visits_each_node_once() {
    let graph = sample_graph();
    let query = graph.query();
    let options = SemanticGraphTraversalOptions::new(SemanticGraphTraversalDirection::Downstream, 2);

    let reached = query.traverse(&NodeId::new("a"), &options);
    let listed: Vec<(&str, usize, Option<&str>)> = reached
        .iter()
        .map(|node| (node.node_id().as_str(), node.depth(), node.via_edge().map(EdgeId::as_str)))
        .collect();

    assert_eq!(
        listed,
        vec![
            ("b", 1, Some("edge:source#1:a;target#1:b;kind:contains")),
            ("c", 1, Some("edge:source#1:a;target#1:c;kind:contains")),
            ("d", 2, Some("edge:source#1:b;target#1:d;kind:reads")),
        ]
    );

    let shallow = query.traverse(
        &NodeId::new("a"),
        &SemanticGraphTraversalOptions::new(SemanticGraphTraversalDirection::Downstream, 1),
    );
    assert_eq!(shallow.len(), 2);
}

#[test]
fn upstream_traversal_can_include_the_start_node() {
    let graph = sample_graph();
    let query = graph.query();
    let options =
        SemanticGraphTraversalOptions::new(SemanticGraphTraversalDirection::Upstream, 5).with_include_start(true);

    let reached = query.traverse(&NodeId::new("d"), &options);
    let listed: Vec<(&str, usize)> = reached.iter().map(|node| (node.node_id().as_str(), node.depth())).collect();

    assert_eq!(listed, vec![("d", 0), ("b", 1), ("c", 1), ("a", 2)]);
    assert!(reached[0].via_edge().is_none());
    assert!(query.traverse(&NodeId::new("missing"), &options).is_empty());
    assert!(query.traverse(&NodeId::new("  "), &options).is_empty());

    let calls_only = query.traverse(
        &NodeId::new("a"),
        &SemanticGraphTraversalOptions::new(SemanticGraphTraversalDirection::Downstream, 9)
            .with_edge_kind(EdgeKind::Calls),
    );
    assert!(calls_only.is_empty());
}

#[test]
fn default_edge_filter_allows_every_kind() {
    let filter = SemanticGraphEdgeFilter::default();
    assert_eq!(filter, SemanticGraphEdgeFilter::all());
    for kind in [
        EdgeKind::Contains,
        EdgeKind::Calls,
        EdgeKind::References,
        EdgeKind::Reads,
        EdgeKind::Writes,
        EdgeKind::Grants,
        EdgeKind::Includes,
        EdgeKind::Extends,
        EdgeKind::DependsOn,
        EdgeKind::Opens,
        EdgeKind::Triggers,
    ] {
        assert!(filter.allows(kind));
    }
}
