use oneagent::bsl::{
    bsl_callable_id, bsl_name_key, bsl_names_equal, BslDeclarationExtractor, BslIdentifierRange,
    BslParseError, BslSymbol, BslSymbolKind, LineBslDeclarationExtractor,
};
use oneagent::entity::{EntityId, EntityName};

fn module_id() -> EntityId {
    EntityId::new("module.sales.object").expect("identifier must be valid")
}

#[test]
fn extracts_russian_and_english_declarations() {
    let source = r"
Процедура ПередЗаписью(Отказ, РежимЗаписи) Экспорт
КонецПроцедуры

Function CalculateTotal()
EndFunction

Async Procedure LoadData()
EndProcedure

Асинх Функция ЗагрузитьДанные()
КонецФункции
";

    let symbols = LineBslDeclarationExtractor
        .extract(&module_id(), source)
        .expect("declarations must parse");

    assert_eq!(symbols.len(), 4);
    assert_eq!(symbols[0].name().as_str(), "ПередЗаписью");
    assert_eq!(symbols[0].kind(), BslSymbolKind::Procedure);
    assert!(symbols[0].is_exported());
    assert_eq!(symbols[1].name().as_str(), "CalculateTotal");
    assert_eq!(symbols[1].kind(), BslSymbolKind::Function);
    assert_eq!(symbols[2].name().as_str(), "LoadData");
    assert_eq!(symbols[2].kind(), BslSymbolKind::Procedure);
    assert_eq!(symbols[3].name().as_str(), "ЗагрузитьДанные");
    assert_eq!(symbols[3].kind(), BslSymbolKind::Function);
}

#[test]
fn ignores_comments_and_preprocessor_lines() {
    let source = r"
// Процедура Commented()
#If Client Then
Procedure RealProcedure()
EndProcedure
";

    let symbols = LineBslDeclarationExtractor
        .extract(&module_id(), source)
        .expect("declarations must parse");

    assert_eq!(symbols.len(), 1);
    assert_eq!(symbols[0].name().as_str(), "RealProcedure");
}

#[test]
fn reports_malformed_declaration() {
    let error = LineBslDeclarationExtractor
        .extract(&module_id(), "Procedure MissingParenthesis")
        .expect_err("malformed declaration must fail");

    assert!(matches!(error, BslParseError::MalformedDeclaration { line: 1, .. }));
}

#[test]
fn declaration_ranges_preserve_bom_unicode_whitespace_and_line_endings() {
    let source = "\u{feff}  Процедура Тест () Экспорт\r\nКонецПроцедуры\r\n\tFunction CalculateTotal()\rEndFunction\n";
    let first = LineBslDeclarationExtractor
        .extract(&module_id(), source)
        .expect("declarations must parse");
    let repeated = LineBslDeclarationExtractor
        .extract(&module_id(), source)
        .expect("repeated declarations must parse");

    assert_eq!(first, repeated);
    assert_eq!(first.len(), 2);
    for symbol in &first {
        let range = symbol
            .identifier_range()
            .expect("extracted declaration must have an exact range");
        assert_eq!(&source[range.start_byte()..range.end_byte()], symbol.name().as_str());
    }
    assert_eq!(first[0].line(), 1);
    assert_eq!(first[1].line(), 3);
}

#[test]
fn callable_helpers_and_legacy_constructor_preserve_semantic_compatibility() {
    let identifier = bsl_callable_id(&module_id(), BslSymbolKind::Procedure, "DoWork")
        .expect("callable identifier must be valid");
    assert_eq!(identifier.as_str(), "module.sales.object:procedure:DoWork");
    assert!(bsl_names_equal("ПРОВЕРИТЬ", "проверить"));

    let symbol = BslSymbol::new(
        identifier,
        EntityName::new("DoWork").expect("name must be valid"),
        BslSymbolKind::Procedure,
        1,
        false,
    );
    assert!(symbol.identifier_range().is_none());
}

#[test]
fn declaration_and_export_keywords_are_token_exact_and_nested_scopes_fail() {
    let source = "Procedure Host()\n    ProcedureCall();\nEndProcedure\nProcedure ExportData()\nEndProcedure\nПроцедура ЭкспортДанных()\nКонецПроцедуры\nFunction Published() Export\nEndFunction\nФункция Опубликована() Экспорт\nКонецФункции\n";
    let symbols = LineBslDeclarationExtractor
        .extract(&module_id(), source)
        .expect("token-exact declarations must parse");

    assert_eq!(
        symbols
            .iter()
            .map(|symbol| (symbol.name().as_str(), symbol.is_exported()))
            .collect::<Vec<_>>(),
        [
            ("Host", false),
            ("ExportData", false),
            ("ЭкспортДанных", false),
            ("Published", true),
            ("Опубликована", true),
        ]
    );

    let nested = "Procedure Outer()\nProcedure Inner()\nEndProcedure\nEndProcedure\n";
    assert_eq!(
        LineBslDeclarationExtractor.extract(&module_id(), nested),
        Err(BslParseError::NestedDeclaration(2))
    );
}

#[test]
fn multiline_headers_preserve_export_parameters_and_exact_name_ranges() {
    let source = "Procedure Publish(\n    Val Module,\n    Amount = CalculateDefault(1, 2)) Export\n    Module.Target();\nEndProcedure\n";
    let symbols = LineBslDeclarationExtractor
        .extract(&module_id(), source)
        .expect("multiline declaration must parse");
    assert_eq!(symbols.len(), 1);
    assert_eq!(symbols[0].name().as_str(), "Publish");
    assert!(symbols[0].is_exported());
    let range = symbols[0]
        .identifier_range()
        .expect("multiline declaration must retain its exact name range");
    assert_eq!(&source[range.start_byte()..range.end_byte()], "Publish");
}

#[test]
fn malformed_names_headers_and_scope_ends_fail_closed() {
    for source in [
        "Procedure Invalid Name()\nEndProcedure\n",
        "Procedure MissingClose(\nEndProcedure\n",
        "Procedure MissingEnd()\n",
        "Procedure WrongEnd()\nEndFunction\n",
        "Procedure TrailingParameter(Value,)\nEndProcedure\n",
        "Procedure LeadingParameter(, Value)\nEndProcedure\n",
        "EndProcedure\n",
    ] {
        assert!(matches!(
            LineBslDeclarationExtractor.extract(&module_id(), source),
            Err(BslParseError::MalformedDeclaration { .. })
        ));
    }
}

#[test]
fn bounded_declaration_extraction_rejects_before_the_first_excess_push() {
    let source = "Procedure P0()\nEndProcedure\nProcedure P1()\nEndProcedure\nProcedure P2()\nEndProcedure\nProcedure P3()\nEndProcedure\nProcedure P4()\nEndProcedure\n";
    assert_eq!(
        LineBslDeclarationExtractor.extract_bounded(&module_id(), source, 4),
        Err(BslParseError::BoundExceeded { actual: 5, maximum: 4 })
    );
}

#[test]
fn bounded_extraction_accepts_exactly_the_maximum() {
    let source = "Procedure P0()\nEndProcedure\nFunction F1()\nEndFunction\n";
    let symbols = LineBslDeclarationExtractor
        .extract_bounded(&module_id(), source, 2)
        .expect("two declarations fit a bound of two");
    assert_eq!(symbols.len(), 2);
    assert_eq!(symbols[1].id().as_str(), "module.sales.object:function:F1");
}

#[test]
fn double_byte_order_mark_source_has_no_declarations() {
    let source = "\u{feff}\u{feff}Procedure Hidden()\nEndProcedure\n";
    let symbols = LineBslDeclarationExtractor
        .extract(&module_id(), source)
        .expect("double byte-order mark is accepted");
    assert!(symbols.is_empty());
}

#[test]
fn parse_errors_have_readable_messages() {
    assert_eq!(
        BslParseError::NestedDeclaration(2).message(),
        "nested BSL declaration at line 2"
    );
    assert_eq!(
        BslParseError::MalformedDeclaration { line: 7, text: "EndProcedure".to_owned() }.message(),
        "malformed BSL declaration at line 7: EndProcedure"
    );
    assert_eq!(
        BslParseError::BoundExceeded { actual: 5, maximum: 4 }.message(),
        "BSL declaration count 5 exceeds maximum 4"
    );
    assert_eq!(BslParseError::InvalidName(3).message(), "invalid BSL symbol name at line 3");
    assert_eq!(
        BslParseError::InvalidIdentifier(4).message(),
        "invalid BSL symbol identifier at line 4"
    );
}

#[test]
fn name_keys_and_ranges_behave_as_documented() {
    assert_eq!(bsl_name_key("ОбщийМодуль"), "общиймодуль");
    assert!(!bsl_names_equal("Alpha", "Beta"));
    assert!(BslIdentifierRange::new(3, 3).is_none());
    let range = BslIdentifierRange::new(2, 5).expect("non-empty range");
    assert_eq!((range.start_byte(), range.end_byte()), (2, 5));
    assert_eq!(BslSymbolKind::Function.as_str(), "function");
    assert_eq!(BslSymbolKind::Procedure.as_str(), "procedure");
}

#[test]
fn scope_end_with_trailing_statement_is_malformed() {
    let error = LineBslDeclarationExtractor
        .extract(&module_id(), "Procedure P()\nEndProcedure; x = 1\n")
        .expect_err("an end keyword followed by code is malformed");
    assert_eq!(
        error,
        BslParseError::MalformedDeclaration { line: 2, text: "EndProcedure; x = 1".to_owned() }
    );
    let ok = LineBslDeclarationExtractor
        .extract(&module_id(), "Procedure P()\nEndProcedure; // done\n")
        .expect("an end keyword followed by a comment is fine");
    assert_eq!(ok.len(), 1);
}
