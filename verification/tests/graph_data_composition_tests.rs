use oneagent::entity::{EntityId, EntityName};
use oneagent::graph::data_composition::{
    data_composition_field_id, data_set_id, data_set_query_id, DataCompositionFieldPayload,
    DataCompositionIdentityError, DataCompositionSchemaPayload, DataSetKind, DataSetPayload, DataSetPayloadError,
};

fn id(value: &str) -> EntityId {
    EntityId::new(value).expect("identifier must be valid")
}

fn name(value: &str) -> EntityName {
    EntityName::new(value).expect("name must be valid")
}

#[test]
fn typed_payloads_preserve_accepted_semantic_content() {
    let schema = DataCompositionSchemaPayload::new(true);
    let query = DataSetPayload::new(DataSetKind::Query, Some(name("DataSource1")))
        .expect("Query Data Set must accept a local data source");
    let object = DataSetPayload::new(DataSetKind::Object, Some(name("DataSource1")))
        .expect("Object Data Set must accept a local data source");
    let union = DataSetPayload::new(DataSetKind::Union, None).expect("Union Data Set must accept absent direct data source");
    let field = DataCompositionFieldPayload::new(name("Products.Ref"));

    assert!(schema.is_main());
    assert_eq!(query.kind(), DataSetKind::Query);
    assert_eq!(query.data_source(), Some(&name("DataSource1")));
    assert_eq!(object.kind().as_str(), "object");
    assert_eq!(union.data_source(), None);
    assert_eq!(field.data_path().as_str(), "Products.Ref");
}

#[test]
fn data_set_payload_rejects_invalid_data_source_cardinality() {
    assert_eq!(DataSetPayload::new(DataSetKind::Query, None), Err(DataSetPayloadError::MissingDataSource));
    assert_eq!(DataSetPayload::new(DataSetKind::Object, None), Err(DataSetPayloadError::MissingDataSource));
    assert_eq!(
        DataSetPayload::new(DataSetKind::Union, Some(name("DataSource1"))),
        Err(DataSetPayloadError::UnexpectedDataSource)
    );
}

#[test]
fn identities_are_stable_collision_safe_and_content_independent() {
    let schema = id("schema:main");
    let data_set = data_set_id(&schema, &name("Sales:Current")).expect("Data Set identity must be valid");
    let repeated = data_set_id(&schema, &name("Sales:Current")).expect("repeated Data Set identity must be valid");
    let concatenated =
        data_set_id(&id("schema:main:Sales"), &name("Current")).expect("second Data Set identity must be valid");
    let field = data_composition_field_id(&data_set, &name("Product:Ref")).expect("Field identity must be valid");
    let query = data_set_query_id(&data_set).expect("Query identity must be valid");

    assert_eq!(data_set, repeated);
    assert_ne!(data_set, concatenated);
    assert_ne!(field, query);
    assert!(data_set.as_str().contains("owner#11:schema:main"));
    assert!(data_set.as_str().contains("name#13:Sales:Current"));
}

#[test]
fn identity_texts_are_exact() {
    let schema = id("s");
    let data_set = data_set_id(&schema, &name("Ds")).expect("valid");
    assert_eq!(data_set.as_str(), "data_composition:data_set;owner#1:s;name#2:Ds");
    let query = data_set_query_id(&data_set).expect("valid");
    assert_eq!(
        query.as_str(),
        "data_composition:data_set_query;owner#45:data_composition:data_set;owner#1:s;name#2:Ds;role#5:query"
    );
    let field = data_composition_field_id(&schema, &name("Поле")).expect("valid");
    assert_eq!(field.as_str(), "data_composition:data_composition_field;owner#1:s;name#8:Поле");
}

#[test]
fn error_messages_are_stable() {
    assert_eq!(DataSetPayloadError::MissingDataSource.message(), "query or object data set requires a data source");
    assert_eq!(
        DataSetPayloadError::UnexpectedDataSource.message(),
        "union data set must not declare a direct data source"
    );
    assert_eq!(DataCompositionIdentityError.message(), "invalid data composition identifier");
    assert_eq!(DataSetKind::Union.as_str(), "union");
    assert_eq!(DataSetKind::Query.as_str(), "query");
    assert!(!DataCompositionSchemaPayload::new(false).is_main());
}
