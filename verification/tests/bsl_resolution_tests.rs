use oneagent::bsl::{
    BslCall, BslCallExtractor, BslCallResolver, BslDeclarationExtractor, BslModuleSymbols,
    BslSymbol, BslSymbolKind, CrossModuleCallResolver, LineBslCallExtractor,
    LineBslDeclarationExtractor, LocalBslCallResolver, QualifiedBslCallResolver,
    UnresolvedCallReason, UnresolvedCrossModuleCallReason,
};
use oneagent::entity::{EntityId, EntityName};

fn id(value: &str) -> EntityId {
    EntityId::new(value).expect("identifier must be valid")
}

fn name(value: &str) -> EntityName {
    EntityName::new(value).expect("name must be valid")
}

fn symbol(identifier: &str, symbol_name: &str, kind: BslSymbolKind) -> BslSymbol {
    BslSymbol::new(id(identifier), name(symbol_name), kind, 1, false)
}

fn exported_symbol(identifier: &str, symbol_name: &str, exported: bool) -> BslSymbol {
    BslSymbol::new(id(identifier), name(symbol_name), BslSymbolKind::Procedure, 1, exported)
}

#[test]
fn resolves_local_call_case_insensitively() {
    let symbols = vec![
        symbol("module:procedure:Post", "Post", BslSymbolKind::Procedure),
        symbol("module:procedure:FillMovements", "FillMovements", BslSymbolKind::Procedure),
    ];
    let calls = vec![BslCall::new(id("module:call:2:1"), Some(name("POST")), name("fillmovements"), 2)];

    let result = LocalBslCallResolver.resolve(&symbols, &calls);

    assert_eq!(result.resolved().len(), 1);
    assert!(result.unresolved().is_empty());
    assert_eq!(result.resolved()[0].origin_id().as_str(), "module:procedure:Post");
    assert_eq!(result.resolved()[0].destination_id().as_str(), "module:procedure:FillMovements");
}

#[test]
fn leaves_qualified_call_for_cross_module_resolution() {
    let symbols = vec![symbol("module:procedure:Post", "Post", BslSymbolKind::Procedure)];
    let calls = vec![BslCall::new(
        id("module:call:2:1"),
        Some(name("Post")),
        name("AccessManagement.CheckRights"),
        2,
    )];

    let result = LocalBslCallResolver.resolve(&symbols, &calls);

    assert!(result.resolved().is_empty());
    assert_eq!(result.unresolved().len(), 1);
    assert_eq!(result.unresolved()[0].reason(), UnresolvedCallReason::QualifiedTarget);
}

#[test]
fn reports_missing_local_target() {
    let symbols = vec![symbol("module:procedure:Post", "Post", BslSymbolKind::Procedure)];
    let calls = vec![BslCall::new(id("module:call:2:1"), Some(name("Post")), name("UnknownProcedure"), 2)];

    let result = LocalBslCallResolver.resolve(&symbols, &calls);

    assert_eq!(result.unresolved()[0].reason(), UnresolvedCallReason::TargetSymbolNotFound);
}

#[test]
fn reports_call_outside_symbol_scope() {
    let calls = vec![BslCall::new(id("module:call:1:1"), None, name("DoWork"), 1)];

    let result = LocalBslCallResolver.resolve(&[], &calls);

    assert_eq!(result.unresolved()[0].reason(), UnresolvedCallReason::MissingSourceScope);
}

#[test]
fn reports_unknown_source_symbol_and_keeps_call_order() {
    let symbols = vec![symbol("module:procedure:Post", "Post", BslSymbolKind::Procedure)];
    let calls = vec![
        BslCall::new(id("module:call:1:1"), Some(name("Missing")), name("Post"), 1),
        BslCall::new(id("module:call:2:2"), Some(name("Post")), name("post"), 2),
    ];

    let result = LocalBslCallResolver.resolve(&symbols, &calls);

    assert_eq!(result.unresolved().len(), 1);
    assert_eq!(result.unresolved()[0].reason(), UnresolvedCallReason::SourceSymbolNotFound);
    assert_eq!(result.unresolved()[0].source_name().map(|n| n.as_str()), Some("Missing"));
    assert_eq!(result.unresolved()[0].target_name().as_str(), "Post");
    assert_eq!(result.unresolved()[0].line(), 1);
    assert_eq!(result.resolved().len(), 1);
    assert_eq!(result.resolved()[0].line(), 2);
}

#[test]
fn extracted_declarations_and_calls_resolve_end_to_end() {
    let source = "Procedure Post()\n    Fill();\nEndProcedure\nProcedure Fill()\nEndProcedure\n";
    let module = id("module.sales");
    let symbols = LineBslDeclarationExtractor.extract(&module, source).expect("declarations parse");
    let calls = LineBslCallExtractor.extract_calls(&module, source).expect("calls parse");
    let result = LocalBslCallResolver.resolve(&symbols, &calls);
    assert_eq!(result.resolved().len(), 1);
    assert_eq!(result.resolved()[0].origin_id().as_str(), "module.sales:procedure:Post");
    assert_eq!(result.resolved()[0].destination_id().as_str(), "module.sales:procedure:Fill");
}

fn sales_module() -> BslModuleSymbols {
    BslModuleSymbols::new(
        id("document-module"),
        name("SalesObjectModule"),
        vec![exported_symbol("document-module:procedure:Post", "Post", false)],
    )
}

#[test]
fn resolves_exported_qualified_call() {
    let target_module = BslModuleSymbols::new(
        id("access-module"),
        name("AccessManagement"),
        vec![exported_symbol("access-module:procedure:CheckRights", "CheckRights", true)],
    );
    let calls = vec![BslCall::new(
        id("document-module:call:2:1"),
        Some(name("Post")),
        name("AccessManagement.CheckRights"),
        2,
    )];

    let result = QualifiedBslCallResolver.resolve_cross_module_calls(&sales_module(), &[target_module], &calls);

    assert_eq!(result.resolved().len(), 1);
    assert!(result.unresolved().is_empty());
    assert_eq!(result.resolved()[0].origin_id().as_str(), "document-module:procedure:Post");
    assert_eq!(result.resolved()[0].destination_id().as_str(), "access-module:procedure:CheckRights");
}

#[test]
fn rejects_non_exported_target() {
    let target_module = BslModuleSymbols::new(
        id("access-module"),
        name("AccessManagement"),
        vec![exported_symbol("access-module:procedure:InternalCheck", "InternalCheck", false)],
    );
    let calls = vec![BslCall::new(
        id("document-module:call:2:1"),
        Some(name("Post")),
        name("AccessManagement.InternalCheck"),
        2,
    )];

    let result = QualifiedBslCallResolver.resolve_cross_module_calls(&sales_module(), &[target_module], &calls);

    assert_eq!(result.unresolved()[0].reason(), UnresolvedCrossModuleCallReason::TargetSymbolNotExported);
}

#[test]
fn reports_missing_target_module() {
    let calls = vec![BslCall::new(
        id("document-module:call:2:1"),
        Some(name("Post")),
        name("UnknownModule.DoWork"),
        2,
    )];

    let result = QualifiedBslCallResolver.resolve_cross_module_calls(&sales_module(), &[], &calls);

    assert_eq!(result.unresolved()[0].reason(), UnresolvedCrossModuleCallReason::TargetModuleNotFound);
}

#[test]
fn cross_module_resolution_skips_local_calls_and_rejects_malformed_targets() {
    let target_module = BslModuleSymbols::new(
        id("access-module"),
        name("AccessManagement"),
        vec![exported_symbol("access-module:procedure:CheckRights", "CheckRights", true)],
    );
    let calls = vec![
        BslCall::new(id("c1"), Some(name("Post")), name("LocalOnly"), 1),
        BslCall::new(id("c2"), Some(name("Post")), name("A.B.C"), 2),
        BslCall::new(id("c3"), None, name("AccessManagement.CheckRights"), 3),
        BslCall::new(id("c4"), Some(name("Missing")), name("AccessManagement.CheckRights"), 4),
        BslCall::new(id("c5"), Some(name("Post")), name("accessmanagement.Unknown"), 5),
        BslCall::new(id("c6"), Some(name("post")), name("ACCESSMANAGEMENT.checkrights"), 6),
    ];

    let result = QualifiedBslCallResolver.resolve_cross_module_calls(&sales_module(), &[target_module], &calls);

    let reasons = result.unresolved().iter().map(|call| call.reason()).collect::<Vec<_>>();
    assert_eq!(
        reasons,
        [
            UnresolvedCrossModuleCallReason::InvalidQualifiedTarget,
            UnresolvedCrossModuleCallReason::MissingSourceScope,
            UnresolvedCrossModuleCallReason::SourceSymbolNotFound,
            UnresolvedCrossModuleCallReason::TargetSymbolNotFound,
        ]
    );
    assert_eq!(result.resolved().len(), 1);
    assert_eq!(result.resolved()[0].line(), 6);
    assert_eq!(sales_module().module_name().as_str(), "SalesObjectModule");
    assert_eq!(sales_module().module_id().as_str(), "document-module");
    assert_eq!(sales_module().symbols().len(), 1);
}
