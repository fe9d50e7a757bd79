use std::collections::BTreeSet;

use oneagent::entity::EntityId;
use oneagent::graph::access_right::{AccessRight, AccessRightRowRestriction};
use oneagent::graph::provenance::{Confidence, FactOrigin, ProducerId, Provenance, ResolutionState};

fn id(value: &str) -> EntityId {
    EntityId::new(value).expect("identifier must be valid")
}

fn provenance(source: &EntityId) -> Provenance {
    Provenance::new(
        Some(source.clone()),
        ProducerId::new("oneagent.graph.tests"),
        FactOrigin::Declared,
        Confidence::Exact,
        ResolutionState::NotApplicable,
    )
}

#[test]
fn creates_access_right() {
    let resource_id = id("metadata.document.sales");
    let right_id = id("right.read");
    let access_right = AccessRight::new(resource_id.clone(), right_id.clone(), vec![provenance(&resource_id)])
        .expect("access right must be valid");

    assert_eq!(
        access_right.id().as_str(),
        "access_right:resource#23:metadata.document.sales;right#10:right.read"
    );
    assert_eq!(access_right.name().as_str(), "right.read on metadata.document.sales");
    assert_eq!(access_right.protected_resource_id(), &resource_id);
    assert_eq!(access_right.right_id(), &right_id);
    assert!(access_right.payload().row_restriction().is_none());
    assert_eq!(access_right.provenance().len(), 1);
    assert_eq!(access_right.provenance()[0].source(), Some(&resource_id));
}

#[test]
fn access_right_id_is_deterministic() {
    let resource_id = id("metadata.document.sales");
    let right_id = id("right.read");
    let first = AccessRight::new(resource_id.clone(), right_id.clone(), Vec::new()).expect("access right must be valid");
    let second = AccessRight::new(resource_id, right_id, Vec::new()).expect("access right must be valid");

    assert_eq!(first.id(), second.id());
}

#[test]
fn different_rights_for_same_resource_have_different_ids() {
    let resource_id = id("metadata.document.sales");
    let read = AccessRight::new(resource_id.clone(), id("right.read"), Vec::new()).expect("access right must be valid");
    let update = AccessRight::new(resource_id, id("right.update"), Vec::new()).expect("access right must be valid");

    assert_ne!(read.id(), update.id());
}

#[test]
fn same_right_for_different_resources_has_different_ids() {
    let sales_read = AccessRight::new(id("metadata.document.sales"), id("right.read"), Vec::new())
        .expect("access right must be valid");
    let products_read = AccessRight::new(id("metadata.catalog.products"), id("right.read"), Vec::new())
        .expect("access right must be valid");

    assert_ne!(sales_read.id(), products_read.id());
}

#[test]
fn access_right_identity_ordering_is_deterministic() {
    let mut ids = BTreeSet::new();
    ids.insert(
        AccessRight::new(id("metadata.document.sales"), id("right.update"), Vec::new())
            .expect("access right must be valid")
            .id()
            .clone(),
    );
    ids.insert(
        AccessRight::new(id("metadata.document.sales"), id("right.read"), Vec::new())
            .expect("access right must be valid")
            .id()
            .clone(),
    );
    ids.insert(
        AccessRight::new(id("metadata.catalog.products"), id("right.read"), Vec::new())
            .expect("access right must be valid")
            .id()
            .clone(),
    );

    let ordered = ids.into_iter().map(|id| id.as_str().to_owned()).collect::<Vec<_>>();

    assert_eq!(
        ordered,
        vec![
            "access_right:resource#23:metadata.document.sales;right#10:right.read",
            "access_right:resource#23:metadata.document.sales;right#12:right.update",
            "access_right:resource#25:metadata.catalog.products;right#10:right.read",
        ]
    );
}

#[test]
fn conditional_access_right_preserves_canonical_opaque_condition() {
    let restriction = AccessRightRowRestriction::new("  WHERE NOT DeletionMark\n").expect("row restriction must be valid");
    let access_right = AccessRight::new_with_row_restriction(
        id("metadata.catalog.products"),
        id("Read"),
        Some(restriction),
        Vec::new(),
    )
    .expect("conditional access right must be valid");

    assert_eq!(
        access_right.id().as_str(),
        "access_right:resource#25:metadata.catalog.products;right#4:Read;row_restriction#22:WHERE NOT DeletionMark"
    );
    assert_eq!(
        access_right.name().as_str(),
        "Read on metadata.catalog.products restricted by WHERE NOT DeletionMark"
    );
    assert_eq!(
        access_right.payload().row_restriction().expect("condition must exist").condition(),
        "WHERE NOT DeletionMark"
    );
}

#[test]
fn conditional_identity_separates_absent_and_distinct_conditions() {
    let resource_id = id("metadata.catalog.products");
    let right_id = id("Read");
    let unconditional = AccessRight::new(resource_id.clone(), right_id.clone(), Vec::new())
        .expect("unconditional access right must be valid");
    let first = AccessRight::new_with_row_restriction(
        resource_id.clone(),
        right_id.clone(),
        Some(AccessRightRowRestriction::new("WHERE NOT DeletionMark").expect("condition must be valid")),
        Vec::new(),
    )
    .expect("conditional access right must be valid");
    let repeated = AccessRight::new_with_row_restriction(
        resource_id.clone(),
        right_id.clone(),
        Some(AccessRightRowRestriction::new(" WHERE NOT DeletionMark ").expect("condition must be valid")),
        Vec::new(),
    )
    .expect("conditional access right must be valid");
    let second = AccessRight::new_with_row_restriction(
        resource_id,
        right_id,
        Some(AccessRightRowRestriction::new("WHERE Owner = CurrentUser").expect("condition must be valid")),
        Vec::new(),
    )
    .expect("conditional access right must be valid");

    assert_ne!(unconditional.id(), first.id());
    assert_eq!(first.id(), repeated.id());
    assert_eq!(first.payload(), repeated.payload());
    assert_ne!(first.id(), second.id());
}

#[test]
fn row_restriction_rejects_empty_canonical_text() {
    assert!(AccessRightRowRestriction::new(" \n\t ").is_err());
}
