use oneagent::bsl::{BslQueryError, BslQueryExtractor, LineBslQueryExtractor};
use oneagent::bsl::source_map::{BslSourcePosition, DecodedBslSourceSegment};
use oneagent::entity::EntityId;

fn module_id() -> EntityId {
    EntityId::new("module.sales.object").expect("identifier must be valid")
}

#[test]
fn extracts_constructor_query_inside_known_scope() {
    let source = r#"
Procedure Post()
    Query = New Query("SELECT Ref FROM Catalog.Products");
EndProcedure
"#;

    let queries = LineBslQueryExtractor.extract_queries(&module_id(), source).expect("queries must parse");

    assert_eq!(queries.len(), 1);
    assert_eq!(queries[0].binding_name().as_str(), "Query");
    assert_eq!(queries[0].owner_name().as_str(), "Post");
    assert_eq!(queries[0].id().as_str(), "module.sales.object:procedure:Post:query:Query");
    assert_eq!(queries[0].text(), "SELECT Ref FROM Catalog.Products");
}

#[test]
fn extracts_text_assignment_query_inside_known_scope() {
    let source = r#"
Функция Получить()
    Запрос = Новый Запрос;
    Запрос.Текст = "ВЫБРАТЬ Ссылка ИЗ Справочник.Номенклатура";
КонецФункции
"#;

    let queries = LineBslQueryExtractor.extract_queries(&module_id(), source).expect("queries must parse");

    assert_eq!(queries.len(), 1);
    assert_eq!(queries[0].binding_name().as_str(), "Запрос");
    assert_eq!(queries[0].owner_name().as_str(), "Получить");
    assert_eq!(queries[0].id().as_str(), "module.sales.object:function:Получить:query:Запрос");
}

#[test]
fn same_local_binding_in_different_owners_does_not_collide() {
    let source = r#"
Procedure Post()
    Query = New Query("SELECT Ref FROM Catalog.Products");
EndProcedure

Procedure Check()
    Query = New Query("SELECT Ref FROM Catalog.Products");
EndProcedure
"#;

    let queries = LineBslQueryExtractor.extract_queries(&module_id(), source).expect("queries must parse");

    assert_eq!(queries.len(), 2);
    assert_ne!(queries[0].id(), queries[1].id());
}

#[test]
fn ignores_dynamic_and_ambiguous_query_patterns() {
    let source = r#"
Procedure Post()
    Query = New Query;
    Query.Text = Text;
    OtherQuery = New Query;
    OtherQuery.Text = "SELECT Ref FROM Catalog.Products";
    OtherQuery.Text = "SELECT Ref FROM Catalog.Services";
    PlainText = "SELECT Ref FROM Catalog.Products";
EndProcedure
"#;

    let queries = LineBslQueryExtractor.extract_queries(&module_id(), source).expect("queries must parse");

    assert!(queries.is_empty());
}

#[test]
fn ignores_query_without_known_scope_or_static_text() {
    let source = r#"
Query = New Query("SELECT Ref FROM Catalog.Products");

Procedure Post()
    Query = New Query;
EndProcedure
"#;

    let queries = LineBslQueryExtractor.extract_queries(&module_id(), source).expect("queries must parse");

    assert!(queries.is_empty());
}

#[test]
fn multiline_constructor_decodes_confirmed_fragments_and_retains_private_map() {
    let source = "Procedure Post()\n    Query = New Query(\"OPEN\n \t|  NEXT \"\"quoted\"\"\n    |\n    |Юникод\");\nEndProcedure\n";

    let queries = LineBslQueryExtractor.extract_queries(&module_id(), source).expect("multiline query must parse");

    assert_eq!(queries.len(), 1);
    let query = &queries[0];
    assert_eq!(query.text(), "OPEN\n  NEXT \"quoted\"\n\nЮникод");
    assert_eq!(query.line(), 2);
    assert_eq!(query.id().as_str(), "module.sales.object:procedure:Post:query:Query");
    let source_map = query.source_map().expect("extracted query must retain a private source map");
    assert_eq!(source_map.physical_lines().len(), 4);
    assert_eq!(source_map.physical_lines()[0].line_number, 2);
    assert_eq!(source_map.physical_lines()[3].line_number, 5);
    assert!(source_map.segments().iter().any(|segment| matches!(segment, DecodedBslSourceSegment::Copied { .. })));
    assert!(source_map.segments().iter().any(|segment| matches!(
        segment,
        DecodedBslSourceSegment::CollapsedQuote { source_start, source_end, .. }
            if source_end - source_start == 2
    )));
    assert_eq!(
        source_map
            .segments()
            .iter()
            .filter(|segment| matches!(segment, DecodedBslSourceSegment::InsertedLf { .. }))
            .count(),
        3
    );

    // Offsets of the map count Unicode scalars of the decoded text.
    let first_lf = query.text().chars().position(|c| c == '\n').expect("decoded LF must exist");
    let lf_projection =
        source_map.project(first_lf, first_lf + 1).expect("inserted LF must project to the continuation marker");
    assert_eq!(lf_projection.start, BslSourcePosition { line: 3, column: 3 });
    assert_eq!(lf_projection.end, BslSourcePosition { line: 3, column: 4 });

    let unicode_start = query.text().chars().position(|c| c == 'Ю').expect("Unicode payload must exist");
    let unicode_projection = source_map
        .project(unicode_start, unicode_start + 1)
        .expect("copied Unicode scalars must project to BSL scalar columns");
    assert_eq!(unicode_projection.start, BslSourcePosition { line: 5, column: 6 });
    assert_eq!(unicode_projection.end, BslSourcePosition { line: 5, column: 7 });
    let source_len = source.chars().count();
    assert!(source_map.is_consistent(query.text().chars().count(), source_len));
}

#[test]
fn multiline_text_assignment_and_line_endings_are_equivalent() {
    let lf = "Функция Получить()\n\tЗапрос = Новый Запрос;\n\tЗапрос.Текст = \"SELECT\n\t\t| Ref\n\t\t|FROM Catalog.Products\";\nКонецФункции\n";
    let crlf = lf.replace('\n', "\r\n");

    let lf_queries = LineBslQueryExtractor.extract_queries(&module_id(), lf).expect("LF query must parse");
    let crlf_queries = LineBslQueryExtractor.extract_queries(&module_id(), &crlf).expect("CRLF query must parse");

    assert_eq!(lf_queries, crlf_queries);
    assert_eq!(lf_queries[0].text(), "SELECT\n Ref\nFROM Catalog.Products");
    assert_eq!(lf_queries[0].line(), 2);
    assert_eq!(lf_queries[0].binding_name().as_str(), crlf_queries[0].binding_name().as_str());
}

#[test]
fn multiline_extraction_remains_conservative_for_non_static_final_text() {
    let source = r#"Procedure Post()
    Dynamic = New Query;
    Dynamic.Text = GetText();
    Replaced = New Query;
    Replaced.Text = "SELECT
    | Ref FROM Catalog.Products";
    Replaced.Text = StrReplace(Replaced.Text, "Products", "Services");
    Reassigned = New Query("SELECT
    | Ref FROM Catalog.Products");
    Reassigned.Text = "SELECT Ref FROM Catalog.Services";
    Returned = New Query(GetText());
    Incomplete = New Query("SELECT
    | Ref FROM Catalog.Products
EndProcedure
"#;

    let queries = LineBslQueryExtractor
        .extract_queries(&module_id(), source)
        .expect("unsupported candidates must remain recoverable");

    assert!(queries.is_empty());
}

#[test]
fn repeated_multiline_extraction_is_deterministic_and_one_line_behavior_is_preserved() {
    let source = r#"Query = New Query("SELECT Ref FROM Catalog.Outside");
Procedure Post()
    Query = New Query("SELECT Ref FROM Catalog.Products");
    Other = New Query("SELECT
    | Ref FROM Catalog.Services");
EndProcedure
"#;

    let first = LineBslQueryExtractor.extract_queries(&module_id(), source).expect("queries must parse");
    let repeated = LineBslQueryExtractor.extract_queries(&module_id(), source).expect("repeated queries must parse");

    assert_eq!(first, repeated);
    assert_eq!(first.len(), 2);
    assert!(first.iter().any(|query| query.text() == "SELECT Ref FROM Catalog.Products"));
    assert!(first.iter().any(|query| query.text() == "SELECT\n Ref FROM Catalog.Services"));
}

#[test]
fn extracted_queries_are_ordered_by_identifier() {
    let source = "Procedure Post()\n    Zeta = New Query(\"SELECT 1\");\n    Alpha = New Query(\"SELECT 2\");\nEndProcedure\n";
    let queries = LineBslQueryExtractor.extract_queries(&module_id(), source).expect("queries must parse");
    let ids = queries.iter().map(|q| q.id().as_str().to_owned()).collect::<Vec<_>>();
    assert_eq!(
        ids,
        [
            "module.sales.object:procedure:Post:query:Alpha",
            "module.sales.object:procedure:Post:query:Zeta",
        ]
    );
}

#[test]
fn duplicate_owner_keeps_the_first_query() {
    let source = "Procedure Post()\n    Q = New Query(\"FIRST\");\nEndProcedure\nProcedure Post()\n    Q = New Query(\"SECOND\");\nEndProcedure\n";
    let queries = LineBslQueryExtractor.extract_queries(&module_id(), source).expect("queries must parse");
    assert_eq!(queries.len(), 1);
    assert_eq!(queries[0].text(), "FIRST");
}

#[test]
fn scope_without_parenthesis_is_malformed() {
    let error = LineBslQueryExtractor
        .extract_queries(&module_id(), "Procedure Broken\nEndProcedure\n")
        .expect_err("a scope header without parenthesis is malformed");
    assert_eq!(error, BslQueryError::MalformedScope { line: 1, text: "Procedure Broken".to_owned() });
    assert_eq!(error.message(), "malformed BSL query scope declaration at line 1: Procedure Broken");
    assert_eq!(BslQueryError::InvalidName(3).message(), "invalid BSL query name at line 3");
    assert_eq!(BslQueryError::InvalidIdentifier(0).message(), "invalid BSL query identifier at line 0");
}
