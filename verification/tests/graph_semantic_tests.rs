use oneagent::entity::{EntityId, EntityName};
use oneagent::graph::access_right::AccessRight;
use oneagent::graph::edge::GraphEdge;
use oneagent::graph::kind::{EdgeKind, MetadataKind, NodeKind};
use oneagent::graph::measure::Measure;
use oneagent::graph::node::GraphNode;
use oneagent::graph::provenance::{Confidence, FactOrigin, ProducerId, Provenance, ResolutionState};
use oneagent::graph::semantic_graph::{GraphError, SemanticGraph};

fn id(value: &str) -> EntityId {
    EntityId::new(value).expect("identifier must be valid")
}

fn name(value: &str) -> EntityName {
    EntityName::new(value).expect("name must be valid")
}

fn provenance(source: &EntityId, origin: FactOrigin) -> Provenance {
    Provenance::new(
        Some(source.clone()),
        ProducerId::new("oneagent.graph.tests"),
        origin,
        Confidence::Exact,
        ResolutionState::NotApplicable,
    )
}

#[test]
fn inserts_valid_edge() {
    let document_id = id("document.sales");
    let form_id = id("form.sales.main");
    let mut graph = SemanticGraph::new();

    graph.insert_node(GraphNode::new(
        document_id.clone(),
        name("Sales"),
        NodeKind::Metadata(MetadataKind::Document),
    ));
    graph.insert_node(GraphNode::new(form_id.clone(), name("MainForm"), NodeKind::Form));

    let inserted = graph
        .insert_edge(GraphEdge::new(document_id.clone(), form_id, EdgeKind::Contains))
        .expect("edge endpoints must exist");

    assert!(inserted);
    assert_eq!(graph.outgoing(&document_id).len(), 1);
}

#[test]
fn rejects_edge_with_missing_target() {
    let source_id = id("module.sales");
    let target_id = id("procedure.missing");
    let mut graph = SemanticGraph::new();

    graph.insert_node(GraphNode::new(source_id.clone(), name("SalesModule"), NodeKind::Module));

    let error = graph
        .insert_edge(GraphEdge::new(source_id, target_id.clone(), EdgeKind::Calls))
        .expect_err("missing target must be rejected");

    assert_eq!(
        error.message(),
        format!("semantic graph node is missing: {}", target_id.as_str())
    );
}

#[test]
fn filters_nodes_and_edges_by_kind() {
    let module_id = id("module.sales");
    let procedure_id = id("procedure.sales.post");
    let query_id = id("query.sales.balance");
    let access_right_id = id("access_right:resource#23:metadata.document.sales;right#10:right.read");
    let mut graph = SemanticGraph::new();

    graph.insert_node(GraphNode::new(module_id.clone(), name("SalesModule"), NodeKind::Module));
    graph.insert_node(GraphNode::new(procedure_id.clone(), name("Post"), NodeKind::Procedure));
    graph.insert_node(GraphNode::new(query_id.clone(), name("BalanceQuery"), NodeKind::Query));
    graph.insert_node(GraphNode::new(
        access_right_id,
        name("right.read on metadata.document.sales"),
        NodeKind::AccessRight,
    ));

    graph
        .insert_edge(GraphEdge::new(module_id.clone(), procedure_id, EdgeKind::Contains))
        .expect("contains edge must be valid");
    graph
        .insert_edge(GraphEdge::new(module_id.clone(), query_id, EdgeKind::Reads))
        .expect("reads edge must be valid");

    assert_eq!(graph.nodes_by_kind(NodeKind::Query).len(), 1);
    assert_eq!(graph.nodes_by_kind(NodeKind::AccessRight).len(), 1);
    assert_eq!(graph.outgoing_by_kind(&module_id, EdgeKind::Reads).len(), 1);
}

#[test]
fn inserts_node_with_provenance() {
    let module_id = id("module.sales");
    let mut graph = SemanticGraph::new();

    graph.insert_node_with_provenance(
        module_id.clone(),
        name("SalesModule"),
        NodeKind::Module,
        provenance(&module_id, FactOrigin::Parsed),
    );

    let module = graph.node(&module_id).expect("module node must exist");

    assert_eq!(module.id(), &module_id);
    assert_eq!(module.kind(), NodeKind::Module);
    assert_eq!(module.provenance().len(), 1);
    assert_eq!(module.provenance()[0].source(), Some(&module_id));
    assert_eq!(module.provenance()[0].origin(), FactOrigin::Parsed);
}

#[test]
fn node_constructor_accepts_explicit_provenance() {
    let module_id = id("module.sales");
    let node = GraphNode::new_with_provenance(
        module_id.clone(),
        name("SalesModule"),
        NodeKind::Module,
        vec![provenance(&module_id, FactOrigin::Parsed)],
    );

    assert_eq!(node.id(), &module_id);
    assert_eq!(node.kind(), NodeKind::Module);
    assert_eq!(node.provenance().len(), 1);
    assert_eq!(node.provenance()[0].source(), Some(&module_id));
}

#[test]
fn inserts_edge_with_provenance() {
    let module_id = id("module.sales");
    let procedure_id = id("procedure.sales.post");
    let mut graph = SemanticGraph::new();

    graph.insert_node(GraphNode::new(module_id.clone(), name("SalesModule"), NodeKind::Module));
    graph.insert_node(GraphNode::new(procedure_id.clone(), name("Post"), NodeKind::Procedure));

    graph
        .insert_edge_with_provenance(
            module_id.clone(),
            procedure_id.clone(),
            EdgeKind::Contains,
            provenance(&module_id, FactOrigin::Declared),
        )
        .expect("edge endpoints must exist");

    let edges = graph.outgoing_by_kind(&module_id, EdgeKind::Contains);

    assert_eq!(edges.len(), 1);
    assert_eq!(edges[0].target(), &procedure_id);
    assert_eq!(edges[0].kind(), EdgeKind::Contains);
    assert_eq!(edges[0].provenance().len(), 1);
    assert_eq!(edges[0].provenance()[0].source(), Some(&module_id));
}

#[test]
fn edge_constructor_accepts_explicit_provenance() {
    let module_id = id("module.sales");
    let procedure_id = id("procedure.sales.post");
    let edge = GraphEdge::new_with_provenance(
        module_id.clone(),
        procedure_id.clone(),
        EdgeKind::Contains,
        vec![provenance(&module_id, FactOrigin::Declared)],
    );

    assert_eq!(edge.source(), &module_id);
    assert_eq!(edge.target(), &procedure_id);
    assert_eq!(edge.kind(), EdgeKind::Contains);
    assert_eq!(edge.provenance().len(), 1);
    assert_eq!(edge.provenance()[0].source(), Some(&module_id));
}

#[test]
fn edge_identity_is_independent_from_provenance() {
    let source_id = id("module.sales");
    let target_id = id("procedure.sales.post");
    let mut graph = SemanticGraph::new();

    graph.insert_node(GraphNode::new(source_id.clone(), name("SalesModule"), NodeKind::Module));
    graph.insert_node(GraphNode::new(target_id.clone(), name("Post"), NodeKind::Procedure));

    let first = graph
        .insert_edge_with_provenance(
            source_id.clone(),
            target_id.clone(),
            EdgeKind::Contains,
            provenance(&source_id, FactOrigin::Declared),
        )
        .expect("edge endpoints must exist");
    let second = graph
        .insert_edge_with_provenance(
            source_id.clone(),
            target_id,
            EdgeKind::Contains,
            provenance(&source_id, FactOrigin::Derived),
        )
        .expect("edge endpoints must exist");

    assert!(first);
    assert!(!second);
    assert_eq!(graph.edge_count(), 1);
}

#[test]
fn inserts_measure_node_and_parent_edge() {
    let register_id = id("metadata.accounting_register.sales");
    let measure = Measure::new(
        register_id.clone(),
        name("Amount"),
        vec![provenance(&register_id, FactOrigin::Declared)],
    )
    .expect("measure must be valid");
    let measure_id = measure.id().clone();
    let mut graph = SemanticGraph::new();

    graph.insert_node(GraphNode::new(
        register_id.clone(),
        name("Sales"),
        NodeKind::Metadata(MetadataKind::AccountingRegister),
    ));

    let previous = graph.insert_measure(&measure).expect("measure parent must exist");

    let node = graph.node(&measure_id).expect("measure node must exist");
    let edges = graph.outgoing_by_kind(&register_id, EdgeKind::Contains);

    assert!(previous.is_none());
    assert_eq!(node.kind(), NodeKind::Measure);
    assert_eq!(node.name().as_str(), "Amount");
    assert_eq!(node.provenance().len(), 1);
    assert_eq!(graph.nodes_by_kind(NodeKind::Measure).len(), 1);
    assert_eq!(edges.len(), 1);
    assert_eq!(edges[0].target(), &measure_id);
    assert_eq!(edges[0].provenance().len(), 1);
}

#[test]
fn inserts_access_right_node_without_owner_edge() {
    let resource_id = id("metadata.document.sales");
    let right_id = id("right.read");
    let access_right = AccessRight::new(
        resource_id.clone(),
        right_id,
        vec![provenance(&resource_id, FactOrigin::Declared)],
    )
    .expect("access right must be valid");
    let access_right_id = access_right.id().clone();
    let mut graph = SemanticGraph::new();

    let previous = graph.insert_access_right(&access_right);

    let node = graph.node(&access_right_id).expect("access right node must exist");

    assert!(previous.is_none());
    assert_eq!(node.kind(), NodeKind::AccessRight);
    assert_eq!(node.name().as_str(), "right.read on metadata.document.sales");
    assert_eq!(node.provenance().len(), 1);
    assert_eq!(node.provenance()[0].source(), Some(&resource_id));
    assert_eq!(graph.nodes_by_kind(NodeKind::AccessRight).len(), 1);
    assert_eq!(graph.edge_count(), 0);
}

#[test]
fn rejects_measure_when_parent_is_missing() {
    let register_id = id("metadata.accounting_register.sales");
    let measure =
        Measure::new(register_id.clone(), name("Amount"), Vec::new()).expect("measure must be valid");
    let measure_id = measure.id().clone();
    let mut graph = SemanticGraph::new();

    let error = graph
        .insert_measure(&measure)
        .expect_err("missing parent must be rejected");

    assert_eq!(error, GraphError::MissingNode(register_id));
    assert!(graph.node(&measure_id).is_none());
}

#[test]
fn measure_does_not_collide_with_resource_or_dimension() {
    let register_id = id("metadata.accounting_register.sales");
    let dimension_id = id("metadata.accounting_register.sales:dimension:Amount");
    let resource_id = id("metadata.accounting_register.sales:resource:Amount");
    let measure = Measure::new(
        register_id.clone(),
        name("Amount"),
        vec![provenance(&register_id, FactOrigin::Declared)],
    )
    .expect("measure must be valid");
    let measure_id = measure.id().clone();
    let mut graph = SemanticGraph::new();

    graph.insert_node(GraphNode::new(
        register_id.clone(),
        name("Sales"),
        NodeKind::Metadata(MetadataKind::AccountingRegister),
    ));
    graph.insert_node(GraphNode::new(dimension_id.clone(), name("Amount"), NodeKind::Dimension));
    graph.insert_node(GraphNode::new(resource_id.clone(), name("Amount"), NodeKind::Resource));
    graph
        .insert_edge(GraphEdge::new(register_id.clone(), dimension_id.clone(), EdgeKind::Contains))
        .expect("dimension edge must be valid");
    graph
        .insert_edge(GraphEdge::new(register_id.clone(), resource_id.clone(), EdgeKind::Contains))
        .expect("resource edge must be valid");
    graph.insert_measure(&measure).expect("measure parent must exist");

    assert_ne!(measure_id, dimension_id);
    assert_ne!(measure_id, resource_id);
    assert_eq!(graph.nodes_by_kind(NodeKind::Dimension).len(), 1);
    assert_eq!(graph.nodes_by_kind(NodeKind::Resource).len(), 1);
    assert_eq!(graph.nodes_by_kind(NodeKind::Measure).len(), 1);
    assert_eq!(graph.outgoing_by_kind(&register_id, EdgeKind::Contains).len(), 3);
    assert_eq!(graph.node(&dimension_id).map(GraphNode::kind), Some(NodeKind::Dimension));
    assert_eq!(graph.node(&resource_id).map(GraphNode::kind), Some(NodeKind::Resource));
    assert_eq!(graph.node(&measure_id).map(GraphNode::kind), Some(NodeKind::Measure));
}

#[test]
fn creates_measure() {
    let parent_id = id("metadata.accounting_register.sales");
    let measure = Measure::new(
        parent_id.clone(),
        name("Amount"),
        vec![provenance(&parent_id, FactOrigin::Declared)],
    )
    .expect("measure must be valid");

    assert_eq!(measure.id().as_str(), "metadata.accounting_register.sales:measure:Amount");
    assert_eq!(measure.name().as_str(), "Amount");
    assert_eq!(measure.parent_id(), &parent_id);
    assert_eq!(measure.provenance().len(), 1);
}

#[test]
fn measure_id_is_deterministic() {
    let parent_id = id("metadata.accounting_register.sales");
    let first = Measure::new(parent_id.clone(), name("Amount"), Vec::new()).expect("measure must be valid");
    let second = Measure::new(parent_id, name("Amount"), Vec::new()).expect("measure must be valid");

    assert_eq!(first.id(), second.id());
}

#[test]
fn different_measure_names_have_different_ids() {
    let parent_id = id("metadata.accounting_register.sales");
    let amount = Measure::new(parent_id.clone(), name("Amount"), Vec::new()).expect("measure must be valid");
    let quantity = Measure::new(parent_id, name("Quantity"), Vec::new()).expect("measure must be valid");

    assert_ne!(amount.id(), quantity.id());
}

#[test]
fn same_measure_name_has_different_ids_for_different_objects() {
    let sales_amount = Measure::new(id("metadata.accounting_register.sales"), name("Amount"), Vec::new())
        .expect("measure must be valid");
    let tax_amount = Measure::new(id("metadata.accounting_register.tax"), name("Amount"), Vec::new())
        .expect("measure must be valid");

    assert_ne!(sales_amount.id(), tax_amount.id());
}

#[test]
fn preserves_provenance() {
    let parent_id = id("metadata.accounting_register.sales");
    let measure = Measure::new(
        parent_id.clone(),
        name("Amount"),
        vec![provenance(&parent_id, FactOrigin::Declared)],
    )
    .expect("measure must be valid");

    assert_eq!(measure.provenance().len(), 1);
    assert_eq!(measure.provenance()[0].source(), Some(&parent_id));
    assert_eq!(measure.provenance()[0].origin(), FactOrigin::Declared);
}

#[test]
fn replacing_node_returns_previous_and_keeps_order() {
    let mut graph = SemanticGraph::new();
    let b = id("b.node");
    let a = id("a.node");
    assert!(graph.insert_node(GraphNode::new(b.clone(), name("First"), NodeKind::Module)).is_none());
    assert!(graph.insert_node(GraphNode::new(a.clone(), name("Second"), NodeKind::Module)).is_none());
    let previous = graph
        .insert_node(GraphNode::new(b.clone(), name("Third"), NodeKind::Procedure))
        .expect("node b was present");

    assert_eq!(previous.name().as_str(), "First");
    assert_eq!(graph.node_count(), 2);
    assert_eq!(graph.nodes()[0].id(), &a);
    assert_eq!(graph.nodes()[1].id(), &b);
    assert_eq!(graph.node(&b).map(GraphNode::kind), Some(NodeKind::Procedure));
    assert!(!graph.is_empty());
}

#[test]
fn missing_source_is_reported_before_missing_target() {
    let mut graph = SemanticGraph::new();
    let error = graph
        .insert_edge(GraphEdge::new(id("source.missing"), id("target.missing"), EdgeKind::Calls))
        .expect_err("both endpoints are missing");

    assert_eq!(error, GraphError::MissingNode(id("source.missing")));
    assert_eq!(graph.edge_count(), 0);
    assert!(graph.is_empty());
}

#[test]
fn edges_are_kept_in_source_target_kind_order() {
    let mut graph = SemanticGraph::new();
    let a = id("a");
    let b = id("b");
    let c = id("c");
    for node in [&a, &b, &c] {
        graph.insert_node(GraphNode::new(node.clone(), name("Node"), NodeKind::Module));
    }
    graph.insert_edge(GraphEdge::new(b.clone(), a.clone(), EdgeKind::Calls)).expect("valid");
    graph.insert_edge(GraphEdge::new(a.clone(), c.clone(), EdgeKind::Reads)).expect("valid");
    graph.insert_edge(GraphEdge::new(a.clone(), c.clone(), EdgeKind::Contains)).expect("valid");
    graph.insert_edge(GraphEdge::new(a.clone(), b.clone(), EdgeKind::Calls)).expect("valid");

    let edges = graph.edges();
    assert_eq!(edges.len(), 4);
    assert_eq!((edges[0].source(), edges[0].target(), edges[0].kind()), (&a, &b, EdgeKind::Calls));
    assert_eq!((edges[1].source(), edges[1].target(), edges[1].kind()), (&a, &c, EdgeKind::Contains));
    assert_eq!((edges[2].source(), edges[2].target(), edges[2].kind()), (&a, &c, EdgeKind::Reads));
    assert_eq!((edges[3].source(), edges[3].target(), edges[3].kind()), (&b, &a, EdgeKind::Calls));
    assert_eq!(graph.incoming(&c).len(), 2);
    assert_eq!(graph.outgoing(&a).len(), 3);
}
