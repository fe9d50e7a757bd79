use oneagent::bsl::{BslCall, BslCallError, BslCallExtractor, BslCallKind, LineBslCallExtractor};
use oneagent::entity::{EntityId, EntityName};

fn module_id() -> EntityId {
    EntityId::new("module.sales.object").expect("identifier must be valid")
}

#[test]
fn extracts_direct_and_qualified_calls() {
    let source = r"
Procedure Post()
    FillMovements();
    AccessManagement.CheckRights(User);
EndProcedure
";

    let calls = LineBslCallExtractor
        .extract_calls(&module_id(), source)
        .expect("calls must parse");

    assert_eq!(calls.len(), 2);
    assert_eq!(calls[0].source_symbol().expect("caller must exist").as_str(), "Post");
    assert_eq!(calls[0].target_symbol().as_str(), "FillMovements");
    assert_eq!(calls[1].target_symbol().as_str(), "AccessManagement.CheckRights");
}

#[test]
fn tracks_different_symbol_scopes() {
    let source = r"
Процедура ЗаписатьДокумент()
    ПроверитьДанные();
КонецПроцедуры

Функция ПолучитьСумму()
    Возврат РассчитатьСумму();
КонецФункции
";

    let calls = LineBslCallExtractor
        .extract_calls(&module_id(), source)
        .expect("calls must parse");

    assert_eq!(calls.len(), 2);
    assert_eq!(
        calls[0].source_symbol().expect("caller must exist").as_str(),
        "ЗаписатьДокумент"
    );
    assert_eq!(calls[1].source_symbol().expect("caller must exist").as_str(), "ПолучитьСумму");
}

#[test]
fn ignores_comments_and_control_flow() {
    let source = r"
// CommentedCall();
Procedure Test()
    If IsReady() Then
        RealCall();
    EndIf;
EndProcedure
";

    let calls = LineBslCallExtractor
        .extract_calls(&module_id(), source)
        .expect("calls must parse");

    assert_eq!(calls.len(), 2);
    assert_eq!(calls[0].target_symbol().as_str(), "IsReady");
    assert_eq!(calls[1].target_symbol().as_str(), "RealCall");
}

#[test]
fn records_source_line() {
    let source = "\n\nDoWork();";

    let calls = LineBslCallExtractor
        .extract_calls(&module_id(), source)
        .expect("calls must parse");

    assert_eq!(calls[0].line(), 3);
    assert!(calls[0].source_symbol().is_none());
}

#[test]
fn call_ranges_preserve_raw_unicode_line_endings_repeats_and_final_identifier() {
    let source = "\u{feff}Процедура Тест()\r\n  Проверить(); Проверить ();\r  ОбщийМодуль.Проверить(1);\nКонецПроцедуры\n";
    let first = LineBslCallExtractor
        .extract_calls(&module_id(), source)
        .expect("calls must parse");
    let repeated = LineBslCallExtractor
        .extract_calls(&module_id(), source)
        .expect("repeated calls must parse");

    assert_eq!(first, repeated);
    assert_eq!(first.len(), 3);
    assert_eq!(first[0].kind(), Some(BslCallKind::Local));
    assert_eq!(first[1].kind(), Some(BslCallKind::Local));
    assert_eq!(first[2].kind(), Some(BslCallKind::Qualified));
    assert_eq!(first[0].line(), 2);
    assert_eq!(first[2].line(), 3);
    for call in &first {
        let range = call.identifier_range().expect("extracted call must have an exact range");
        assert_eq!(&source[range.start_byte()..range.end_byte()], "Проверить");
    }
}

#[test]
fn scope_keywords_are_token_exact_and_nested_scopes_fail() {
    let calls = LineBslCallExtractor
        .extract_calls(&module_id(), "Procedure Host()\nProcedureCall();\nEndProcedure\n")
        .expect("keyword-prefixed calls must remain calls");
    assert_eq!(calls.len(), 1);
    assert_eq!(calls[0].target_symbol().as_str(), "ProcedureCall");
    assert_eq!(
        calls[0].source_symbol().expect("call must retain its scope").as_str(),
        "Host"
    );

    let nested = "Procedure Outer()\nFunction Inner()\nEndFunction\nEndProcedure\n";
    assert_eq!(
        LineBslCallExtractor.extract_calls(&module_id(), nested),
        Err(BslCallError::NestedScope(2))
    );
}

#[test]
fn call_extraction_marks_legacy_string_and_inline_comment_candidates_unsupported() {
    let source = "Procedure Test()\n  Text = \"HiddenCall() and \"\"QuotedCall()\"\"\"; RealCall(); // CommentedCall()\n  Text = \"Module.  HiddenMember()\"; // Module. HiddenComment()\n  Text = \"MultilineCall()\n  | StillHiddenCall()\";\n  VisibleCall();\nEndProcedure\n";
    let calls = LineBslCallExtractor
        .extract_calls(&module_id(), source)
        .expect("calls must parse");

    assert_eq!(calls.len(), 9);
    assert_eq!(calls[0].target_symbol().as_str(), "HiddenCall");
    assert_eq!(calls[1].target_symbol().as_str(), "QuotedCall");
    assert_eq!(calls[2].target_symbol().as_str(), "RealCall");
    assert_eq!(calls[3].target_symbol().as_str(), "CommentedCall");
    assert_eq!(calls[4].target_symbol().as_str(), "Module.HiddenMember");
    assert_eq!(calls[5].target_symbol().as_str(), "Module.HiddenComment");
    assert_eq!(calls[6].target_symbol().as_str(), "MultilineCall");
    assert_eq!(calls[7].target_symbol().as_str(), "StillHiddenCall");
    assert_eq!(calls[8].target_symbol().as_str(), "VisibleCall");
    assert_eq!(calls[0].kind(), Some(BslCallKind::Unsupported));
    assert_eq!(calls[1].kind(), Some(BslCallKind::Unsupported));
    assert_eq!(calls[2].kind(), Some(BslCallKind::Local));
    assert_eq!(calls[3].kind(), Some(BslCallKind::Unsupported));
    assert_eq!(calls[4].kind(), Some(BslCallKind::Unsupported));
    assert_eq!(calls[5].kind(), Some(BslCallKind::Unsupported));
    assert_eq!(calls[6].kind(), Some(BslCallKind::Unsupported));
    assert_eq!(calls[7].kind(), Some(BslCallKind::Unsupported));
    assert_eq!(calls[8].kind(), Some(BslCallKind::Local));
}

#[test]
fn computed_member_calls_are_unsupported_instead_of_local() {
    let source = "Procedure Test()\n  GetObject().Target(); Items[0].Target();\n  GetObject().\n  Target();\n  Stable.\n  Target();\n  GetObject()\n  .Target();\n  DirectModule\n  .Target();\n  Target();\n  DirectSpaced.  Target();\n  DirectSeparated . Target();\n  GetObject() . Target();\nEndProcedure\n";
    let calls = LineBslCallExtractor
        .extract_calls(&module_id(), source)
        .expect("computed receivers must remain recoverable evidence");
    let targets = calls
        .iter()
        .filter(|call| call.target_symbol().as_str().ends_with("Target"))
        .collect::<Vec<_>>();
    assert_eq!(targets.len(), 10);
    assert_eq!(targets[0].kind(), Some(BslCallKind::Unsupported));
    assert_eq!(targets[1].kind(), Some(BslCallKind::Unsupported));
    assert_eq!(targets[2].kind(), Some(BslCallKind::Unsupported));
    assert_eq!(targets[3].target_symbol().as_str(), "Stable.Target");
    assert_eq!(targets[3].kind(), Some(BslCallKind::Qualified));
    assert_eq!(targets[4].kind(), Some(BslCallKind::Unsupported));
    assert_eq!(targets[5].target_symbol().as_str(), "DirectModule.Target");
    assert_eq!(targets[5].kind(), Some(BslCallKind::Qualified));
    assert_eq!(targets[6].kind(), Some(BslCallKind::Local));
    assert_eq!(targets[7].target_symbol().as_str(), "DirectSpaced.Target");
    assert_eq!(targets[7].kind(), Some(BslCallKind::Qualified));
    assert_eq!(targets[8].target_symbol().as_str(), "DirectSeparated.Target");
    assert_eq!(targets[8].kind(), Some(BslCallKind::Qualified));
    assert_eq!(targets[9].kind(), Some(BslCallKind::Unsupported));
}

#[test]
fn parameters_and_local_bindings_shadow_qualified_module_calls() {
    let source = "Var GlobalModule Export;\nProcedure Test(Module)\n  Module.Target(); Stable.Target(); Assigned.Target(); GlobalModule.Target();\n  Assigned = GetObject();\nEndProcedure\n";
    let calls = LineBslCallExtractor
        .extract_calls(&module_id(), source)
        .expect("shadowed receivers must remain recoverable evidence");
    let kinds = calls
        .iter()
        .filter(|call| call.target_symbol().as_str().ends_with(".Target"))
        .map(|call| call.kind().expect("extracted calls have a kind"))
        .collect::<Vec<_>>();
    assert_eq!(
        kinds,
        [
            BslCallKind::Unsupported,
            BslCallKind::Qualified,
            BslCallKind::Unsupported,
            BslCallKind::Unsupported,
        ]
    );

    for malformed_module_binding in [
        "Var;\nProcedure Test()\nStable.Target();\nEndProcedure\n",
        "Var\nModule;\nProcedure Test()\nStable.Target();\nEndProcedure\n",
    ] {
        let calls = LineBslCallExtractor
            .extract_calls(&module_id(), malformed_module_binding)
            .expect("incomplete module bindings must remain recoverable");
        assert_eq!(calls.len(), 1);
        assert_eq!(calls[0].kind(), Some(BslCallKind::Unsupported));
    }
}

#[test]
fn legacy_call_constructor_preserves_target_kind_without_claiming_a_range() {
    let call = BslCall::new(
        EntityId::new("module:call:1:1").expect("identifier must be valid"),
        None,
        EntityName::new("Module.Call").expect("name must be valid"),
        1,
    );

    assert!(call.kind().is_none());
    assert!(call.identifier_range().is_none());
}

#[test]
fn call_identifiers_number_calls_by_line_and_ordinal() {
    let calls = LineBslCallExtractor
        .extract_calls(&module_id(), "First();\nSecond(); Third();\n")
        .expect("calls must parse");
    let ids = calls.iter().map(|call| call.id().as_str().to_owned()).collect::<Vec<_>>();
    assert_eq!(
        ids,
        [
            "module.sales.object:call:1:1",
            "module.sales.object:call:2:2",
            "module.sales.object:call:2:3",
        ]
    );
}

#[test]
fn call_extraction_reports_malformed_scopes_and_messages() {
    let error = LineBslCallExtractor
        .extract_calls(&module_id(), "Procedure Broken(\n")
        .expect_err("an unclosed header is malformed");
    assert_eq!(
        error,
        BslCallError::MalformedScope { line: 1, text: "Procedure Broken(".to_owned() }
    );
    assert_eq!(
        error.message(),
        "malformed BSL scope declaration at line 1: Procedure Broken("
    );
    assert_eq!(BslCallError::NestedScope(4).message(), "nested BSL callable scope at line 4");
    assert_eq!(BslCallError::InvalidName(2).message(), "invalid BSL call name at line 2");
    assert_eq!(
        BslCallError::InvalidIdentifier(3).message(),
        "invalid BSL call identifier at line 3"
    );
}

#[test]
fn keywords_followed_by_parentheses_are_not_calls() {
    let calls = LineBslCallExtractor
        .extract_calls(&module_id(), "If (Ready) Then\nWhile (More) Do\nReturn (Value);\n")
        .expect("keyword lines must parse");
    assert!(calls.is_empty());
}
