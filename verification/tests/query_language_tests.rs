use oneagent::query_language::{
    QueryLanguageDiagnosticKind, QueryLanguageParser, QuerySourceCategory, QueryStatementKind,
};

const ACCEPTED_CATALOG_EN: &str = "SELECT Ref FROM Catalog.Products\n";
const ACCEPTED_CATALOG_RU: &str = "ВЫБРАТЬ Ссылка ИЗ Справочник.Номенклатура\n";
const ACCEPTED_INFORMATION_REGISTER_EN: &str =
    "SELECT\n    Tab.ObjectRef\nFROM\n  InformationRegister.ObjectsToDelete AS Tab\n";
const UNSUPPORTED_PARAMETER_SOURCE_EN: &str = "SELECT\n    Data.Ref\nFROM\n    &MetadataTableName\n";

#[test]
fn query_language_parses_english_catalog_fixture() {
    let result = QueryLanguageParser.parse(ACCEPTED_CATALOG_EN);

    assert!(result.is_source_set_complete());
    assert!(result.diagnostics().is_empty());
    let program = result.program().expect("accepted fixture must parse");
    assert_eq!(program.statement_kind(), QueryStatementKind::Select);
    assert_eq!(program.sources().len(), 1);
    let source = &program.sources()[0];
    assert_eq!(source.raw_spelling(), "Catalog.Products");
    assert_eq!(source.category(), QuerySourceCategory::Catalog);
    assert_eq!(source.namespace(), "Catalog");
    assert_eq!(source.local_name(), "Products");
    assert_eq!(source.alias(), None);
    assert_eq!(source.location().start_byte(), 16);
    assert_eq!(source.location().end_byte(), 32);
}

#[test]
fn query_language_parses_russian_catalog_fixture_with_utf8_byte_location() {
    let result = QueryLanguageParser.parse(ACCEPTED_CATALOG_RU);

    assert!(result.is_source_set_complete());
    assert!(result.diagnostics().is_empty());
    let program = result.program().expect("accepted fixture must parse");
    let source = &program.sources()[0];
    assert_eq!(source.raw_spelling(), "Справочник.Номенклатура");
    assert_eq!(source.category(), QuerySourceCategory::Catalog);
    assert_eq!(source.namespace(), "Справочник");
    assert_eq!(source.local_name(), "Номенклатура");
    assert_eq!(source.alias(), None);
    assert_eq!(source.location().start_byte(), 33);
    assert_eq!(source.location().end_byte(), 78);
    assert_eq!(
        &ACCEPTED_CATALOG_RU[source.location().start_byte()..source.location().end_byte()],
        source.raw_spelling()
    );
}

#[test]
fn query_language_parses_information_register_fixture_with_alias() {
    let result = QueryLanguageParser.parse(ACCEPTED_INFORMATION_REGISTER_EN);

    assert!(result.is_source_set_complete());
    assert!(result.diagnostics().is_empty());
    let program = result.program().expect("accepted fixture must parse");
    let source = &program.sources()[0];
    assert_eq!(source.raw_spelling(), "InformationRegister.ObjectsToDelete");
    assert_eq!(source.category(), QuerySourceCategory::InformationRegister);
    assert_eq!(source.namespace(), "InformationRegister");
    assert_eq!(source.local_name(), "ObjectsToDelete");
    assert_eq!(source.alias(), Some("Tab"));
    assert_eq!(source.location().start_byte(), 32);
    assert_eq!(source.location().end_byte(), 67);
}

#[test]
fn query_language_reports_parameter_source_without_partial_program() {
    let result = QueryLanguageParser.parse(UNSUPPORTED_PARAMETER_SOURCE_EN);

    assert!(!result.is_source_set_complete());
    assert!(result.program().is_none());
    assert_eq!(result.diagnostics().len(), 1);
    let diagnostic = result.diagnostics()[0];
    assert_eq!(
        diagnostic.kind(),
        QueryLanguageDiagnosticKind::ExternalOrParameterDataSource
    );
    assert_eq!(diagnostic.location().start_byte(), 29);
    assert_eq!(diagnostic.location().end_byte(), 47);
    assert_eq!(
        &UNSUPPORTED_PARAMETER_SOURCE_EN
            [diagnostic.location().start_byte()..diagnostic.location().end_byte()],
        "&MetadataTableName"
    );
}

#[test]
fn query_language_reports_unsupported_namespace_without_partial_program() {
    let result = QueryLanguageParser.parse("SELECT Ref FROM Document.Sales");

    assert!(!result.is_source_set_complete());
    assert!(result.program().is_none());
    assert_eq!(result.diagnostics().len(), 1);
    let diagnostic = result.diagnostics()[0];
    assert_eq!(
        diagnostic.kind(),
        QueryLanguageDiagnosticKind::UnsupportedPersistentNamespace
    );
    assert_eq!(diagnostic.location().start_byte(), 16);
    assert_eq!(diagnostic.location().end_byte(), 24);
}

#[test]
fn query_language_reports_empty_and_incomplete_input_as_malformed() {
    let empty = QueryLanguageParser.parse("");
    let incomplete = QueryLanguageParser.parse("SELECT Ref FROM");
    let incomplete_parameter = QueryLanguageParser.parse("SELECT Ref FROM &");

    for result in [&empty, &incomplete, &incomplete_parameter] {
        assert!(!result.is_source_set_complete());
        assert!(result.program().is_none());
        assert_eq!(result.diagnostics().len(), 1);
        assert_eq!(
            result.diagnostics()[0].kind(),
            QueryLanguageDiagnosticKind::MalformedSyntax
        );
    }
    assert_eq!(empty.diagnostics()[0].location().start_byte(), 0);
    assert_eq!(empty.diagnostics()[0].location().end_byte(), 0);
    assert_eq!(incomplete.diagnostics()[0].location().start_byte(), 15);
    assert_eq!(incomplete.diagnostics()[0].location().end_byte(), 15);
    assert_eq!(incomplete_parameter.diagnostics()[0].location().start_byte(), 17);
    assert_eq!(incomplete_parameter.diagnostics()[0].location().end_byte(), 17);
}

#[test]
fn query_language_rejects_unconsumed_input_without_partial_program() {
    let result = QueryLanguageParser.parse("SELECT Ref FROM Catalog.Products EXTRA");

    assert!(!result.is_source_set_complete());
    assert!(result.program().is_none());
    assert_eq!(result.diagnostics().len(), 1);
    assert_eq!(
        result.diagnostics()[0].kind(),
        QueryLanguageDiagnosticKind::MalformedSyntax
    );
    assert_eq!(result.diagnostics()[0].location().start_byte(), 33);
    assert_eq!(result.diagnostics()[0].location().end_byte(), 38);
}

#[test]
fn query_language_preserves_crlf_in_raw_byte_locations() {
    let result = QueryLanguageParser.parse("SELECT\r\nRef\r\nFROM\r\nCatalog.Products");

    assert!(result.is_source_set_complete());
    let source = &result
        .program()
        .expect("CRLF input must parse without normalization")
        .sources()[0];
    assert_eq!(source.location().start_byte(), 19);
    assert_eq!(source.location().end_byte(), 35);
}

#[test]
fn query_language_repeated_parsing_is_deterministic() {
    let first = QueryLanguageParser.parse(ACCEPTED_INFORMATION_REGISTER_EN);
    let second = QueryLanguageParser.parse(ACCEPTED_INFORMATION_REGISTER_EN);

    assert_eq!(first, second);
}

#[test]
fn query_language_accepts_top_paths_and_reports_codes_and_messages() {
    let result = QueryLanguageParser.parse("SELECT TOP 10 Tab.Ref.Code FROM Catalog.Items AS Tab");
    let source = &result.program().expect("TOP query must parse").sources()[0];
    assert_eq!(source.alias(), Some("Tab"));
    assert_eq!(source.local_name(), "Items");

    let missing_number = QueryLanguageParser.parse("SELECT TOP Ref FROM Catalog.Items");
    assert_eq!(missing_number.diagnostics()[0].message(), "expected a numeric TOP limit");
    assert_eq!(missing_number.diagnostics()[0].location().start_byte(), 11);

    let russian_alias = QueryLanguageParser.parse("ВЫБРАТЬ Ссылка ИЗ Справочник.Товары AS Т");
    assert_eq!(
        russian_alias.diagnostics()[0].message(),
        "unexpected unconsumed input after the data source"
    );

    let missing_alias = QueryLanguageParser.parse("SELECT Ref FROM Catalog.Items AS 1");
    assert_eq!(missing_alias.diagnostics()[0].message(), "expected a source alias after AS");

    let dangling_dot = QueryLanguageParser.parse("SELECT Ref.1 FROM Catalog.Items");
    assert_eq!(dangling_dot.diagnostics()[0].message(), "expected an identifier after '.'");

    let keyword_as_component = QueryLanguageParser.parse("SELECT Ref. FROM Catalog.Items");
    assert_eq!(
        keyword_as_component.diagnostics()[0].message(),
        "expected the matching source-clause keyword"
    );

    assert_eq!(
        QueryLanguageDiagnosticKind::MalformedSyntax.as_str(),
        "query_language.malformed_syntax"
    );
    assert_eq!(
        QueryLanguageDiagnosticKind::UnsupportedPersistentNamespace.as_str(),
        "query_language.unsupported_persistent_namespace"
    );
    assert_eq!(
        QueryLanguageDiagnosticKind::ExternalOrParameterDataSource.as_str(),
        "query_language.external_or_parameter_data_source"
    );
}
