use oneagent::entity::{EntityId, EntityName};
use oneagent::graph::kind::{MetadataKind, NodeKind};
use oneagent::graph::provenance::{Confidence, FactOrigin, ProducerId, Provenance, ResolutionState};
use oneagent::graph::reference_request::{
    ReferenceRequestIdentity, SemanticReferenceCategory, SemanticReferenceRequest, SemanticReferenceRequestError,
    SemanticReferenceRequestLedger, SemanticReferenceRequestOutcome,
};
use oneagent::graph::resolution::SemanticReference;

fn id(value: &str) -> EntityId {
    EntityId::new(value).expect("identifier must be valid")
}

fn name(value: &str) -> EntityName {
    EntityName::new(value).expect("name must be valid")
}

fn provenance(producer: &str, state: ResolutionState) -> Provenance {
    Provenance::new(
        Some(id(&format!("source:{producer}"))),
        ProducerId::new(producer),
        if state == ResolutionState::Unresolved { FactOrigin::Parsed } else { FactOrigin::Resolved },
        Confidence::Exact,
        state,
    )
}

fn collected(source: &str, target: &str) -> SemanticReferenceRequest {
    SemanticReferenceRequest::collected(
        id(source),
        SemanticReferenceCategory::MetadataType,
        SemanticReference::Name(name(target)),
        vec![
            NodeKind::Metadata(MetadataKind::Document),
            NodeKind::Metadata(MetadataKind::Catalog),
            NodeKind::Metadata(MetadataKind::Catalog),
        ],
        vec![provenance("collector", ResolutionState::Unresolved)],
    )
    .expect("collected request must be valid")
}

fn raw_request(
    state: ResolutionState,
    outcome: SemanticReferenceRequestOutcome,
    candidates: Vec<EntityId>,
) -> Result<SemanticReferenceRequest, SemanticReferenceRequestError> {
    let identity = ReferenceRequestIdentity::new(
        id("source"),
        SemanticReferenceCategory::MetadataType,
        SemanticReference::Name(name("Target")),
        vec![NodeKind::Metadata(MetadataKind::Catalog)],
    )?;
    SemanticReferenceRequest::new(
        identity,
        candidates,
        state,
        outcome,
        vec![provenance("collector", ResolutionState::Unresolved)],
    )
}

#[test]
fn identity_is_stable_and_excludes_terminal_content() {
    let collected = collected("source", "Target");
    let resolved = collected
        .clone()
        .into_resolved(
            id("target"),
            NodeKind::Metadata(MetadataKind::Catalog),
            vec![provenance("resolver", ResolutionState::Resolved)],
        )
        .expect("resolution must succeed");
    let missing = collected
        .clone()
        .into_missing_target(vec![provenance("missing", ResolutionState::Unresolved)])
        .expect("missing outcome must succeed");

    assert_eq!(collected.id(), resolved.id());
    assert_eq!(collected.id(), missing.id());
    assert_ne!(collected, resolved);
    assert_ne!(resolved, missing);
    assert!(collected.id().as_str().contains("reference_request;source#6:source"));
}

#[test]
fn identity_is_independent_of_expected_kind_order_and_duplicates() {
    let first = collected("source", "Target");
    let second = SemanticReferenceRequest::collected(
        id("source"),
        SemanticReferenceCategory::MetadataType,
        SemanticReference::Name(name("Target")),
        vec![NodeKind::Metadata(MetadataKind::Catalog), NodeKind::Metadata(MetadataKind::Document)],
        vec![provenance("collector", ResolutionState::Unresolved)],
    )
    .expect("request must be valid");

    assert_eq!(first.id(), second.id());
    assert_eq!(first.expected_kinds(), second.expected_kinds());
}

#[test]
fn identity_changes_for_every_identity_component() {
    let base = collected("source", "Target");
    let other_source = collected("other", "Target");
    let other_reference = collected("source", "Other");
    let other_category = SemanticReferenceRequest::collected(
        id("source"),
        SemanticReferenceCategory::QuerySource,
        SemanticReference::Name(name("Target")),
        base.expected_kinds().to_vec(),
        vec![provenance("collector", ResolutionState::Unresolved)],
    )
    .expect("request must be valid");
    let other_kinds = SemanticReferenceRequest::collected(
        id("source"),
        SemanticReferenceCategory::MetadataType,
        SemanticReference::Name(name("Target")),
        vec![NodeKind::Metadata(MetadataKind::Catalog)],
        vec![provenance("collector", ResolutionState::Unresolved)],
    )
    .expect("request must be valid");

    for request in [other_source, other_reference, other_category, other_kinds] {
        assert_ne!(base.id(), request.id());
    }
}

#[test]
fn lifecycle_factories_create_every_valid_outcome() {
    let base = collected("source", "Target");
    let resolved = base
        .clone()
        .into_resolved(
            id("target"),
            NodeKind::Metadata(MetadataKind::Catalog),
            vec![provenance("resolved", ResolutionState::Resolved)],
        )
        .expect("resolved outcome must be valid");
    let missing = base
        .clone()
        .into_missing_target(vec![provenance("missing", ResolutionState::Unresolved)])
        .expect("missing outcome must be valid");
    let partial = base
        .clone()
        .into_partial_workspace(vec![id("known")], vec![provenance("partial", ResolutionState::Partial)])
        .expect("partial outcome must be valid");
    let ambiguous = base
        .clone()
        .into_ambiguous_target(
            vec![id("two"), id("one"), id("two")],
            vec![provenance("ambiguous", ResolutionState::Ambiguous)],
        )
        .expect("ambiguous outcome must be valid");
    let incompatible = base
        .clone()
        .into_incompatible_target_kind(vec![id("wrong")], vec![provenance("incompatible", ResolutionState::Unresolved)])
        .expect("incompatible outcome must be valid");
    let invalid_owner = base
        .clone()
        .into_invalid_owner_reference(
            vec![id("child"), id("owner")],
            vec![provenance("owner", ResolutionState::Unresolved)],
        )
        .expect("invalid owner outcome must be valid");

    assert_eq!(base.outcome(), SemanticReferenceRequestOutcome::Collected);
    assert_eq!(resolved.state(), ResolutionState::Resolved);
    assert_eq!(missing.outcome(), SemanticReferenceRequestOutcome::MissingTarget);
    assert_eq!(partial.state(), ResolutionState::Partial);
    assert_eq!(ambiguous.candidates(), &[id("one"), id("two")]);
    assert_eq!(incompatible.outcome(), SemanticReferenceRequestOutcome::IncompatibleTargetKind);
    assert_eq!(invalid_owner.outcome(), SemanticReferenceRequestOutcome::InvalidOwnerReference);
}

#[test]
fn lifecycle_rejects_every_state_outcome_mismatch() {
    let cases = [
        (ResolutionState::Resolved, SemanticReferenceRequestOutcome::Collected),
        (ResolutionState::Unresolved, SemanticReferenceRequestOutcome::Resolved),
        (ResolutionState::Partial, SemanticReferenceRequestOutcome::MissingTarget),
        (ResolutionState::Resolved, SemanticReferenceRequestOutcome::PartialWorkspace),
        (ResolutionState::Unresolved, SemanticReferenceRequestOutcome::AmbiguousTarget),
        (ResolutionState::Ambiguous, SemanticReferenceRequestOutcome::IncompatibleTargetKind),
        (ResolutionState::NotApplicable, SemanticReferenceRequestOutcome::InvalidOwnerReference),
    ];

    for (state, outcome) in cases {
        let error = raw_request(state, outcome, Vec::new()).expect_err("contradictory lifecycle must fail");
        assert!(matches!(
            error,
            SemanticReferenceRequestError::InvalidLifecycle {
                state: actual_state,
                outcome: actual_outcome,
            } if actual_state == state && actual_outcome == outcome
        ));
    }
}

#[test]
fn lifecycle_rejects_invalid_candidate_counts_and_kinds() {
    let invalid_counts = [
        (SemanticReferenceRequestOutcome::Collected, ResolutionState::Unresolved, vec![id("unexpected")]),
        (SemanticReferenceRequestOutcome::Resolved, ResolutionState::Resolved, Vec::new()),
        (SemanticReferenceRequestOutcome::MissingTarget, ResolutionState::Unresolved, vec![id("unexpected")]),
        (SemanticReferenceRequestOutcome::AmbiguousTarget, ResolutionState::Ambiguous, vec![id("only-one")]),
        (SemanticReferenceRequestOutcome::IncompatibleTargetKind, ResolutionState::Unresolved, Vec::new()),
        (SemanticReferenceRequestOutcome::InvalidOwnerReference, ResolutionState::Unresolved, Vec::new()),
    ];
    for (outcome, state, candidates) in invalid_counts {
        assert!(matches!(
            raw_request(state, outcome, candidates),
            Err(SemanticReferenceRequestError::InvalidCandidateCount { .. })
        ));
    }

    let error = collected("source", "Target")
        .into_resolved(
            id("target"),
            NodeKind::Metadata(MetadataKind::InformationRegister),
            vec![provenance("resolver", ResolutionState::Resolved)],
        )
        .expect_err("incompatible candidate kind must fail");
    assert!(matches!(error, SemanticReferenceRequestError::IncompatibleResolvedCandidate { .. }));
}

#[test]
fn constructors_reject_missing_or_invalid_provenance_and_expected_kinds() {
    let missing_kinds = SemanticReferenceRequest::collected(
        id("source"),
        SemanticReferenceCategory::MetadataType,
        SemanticReference::Name(name("Target")),
        vec![],
        vec![provenance("collector", ResolutionState::Unresolved)],
    );
    assert_eq!(
        missing_kinds.expect_err("expected kinds must be required"),
        SemanticReferenceRequestError::MissingExpectedKinds
    );

    let missing_provenance = SemanticReferenceRequest::collected(
        id("source"),
        SemanticReferenceCategory::MetadataType,
        SemanticReference::Name(name("Target")),
        vec![NodeKind::Metadata(MetadataKind::Catalog)],
        vec![],
    );
    assert_eq!(
        missing_provenance.expect_err("provenance must be required"),
        SemanticReferenceRequestError::MissingProvenance
    );

    let invalid_provenance = SemanticReferenceRequest::collected(
        id("source"),
        SemanticReferenceCategory::MetadataType,
        SemanticReference::Name(name("Target")),
        vec![NodeKind::Metadata(MetadataKind::Catalog)],
        vec![provenance("collector", ResolutionState::NotApplicable)],
    );
    assert_eq!(
        invalid_provenance.expect_err("not-applicable provenance must fail"),
        SemanticReferenceRequestError::NotApplicableProvenance
    );
}

#[test]
fn provenance_and_candidates_are_sorted_and_deduplicated() {
    let request = SemanticReferenceRequest::collected(
        id("source"),
        SemanticReferenceCategory::MetadataType,
        SemanticReference::Name(name("Target")),
        vec![NodeKind::Metadata(MetadataKind::Catalog)],
        vec![
            provenance("z-collector", ResolutionState::Unresolved),
            provenance("a-collector", ResolutionState::Unresolved),
            provenance("z-collector", ResolutionState::Unresolved),
        ],
    )
    .expect("request must be valid")
    .into_ambiguous_target(
        vec![id("z-target"), id("a-target"), id("z-target")],
        vec![provenance("resolver", ResolutionState::Ambiguous)],
    )
    .expect("ambiguous request must be valid");

    assert_eq!(request.candidates(), &[id("a-target"), id("z-target")]);
    assert_eq!(request.provenance().len(), 3);
    assert_eq!(request.provenance()[0].producer().as_str(), "a-collector");
}

#[test]
fn ledger_merges_duplicate_provenance_and_is_order_independent() {
    let first = collected("source-a", "A");
    let duplicate = SemanticReferenceRequest::collected(
        first.source_node().clone(),
        first.category(),
        first.reference().clone(),
        first.expected_kinds().to_vec(),
        vec![provenance("second-collector", ResolutionState::Unresolved)],
    )
    .expect("duplicate request must be valid");
    let second = collected("source-b", "B");
    let normal = SemanticReferenceRequestLedger::from_requests(vec![first.clone(), duplicate.clone(), second.clone()])
        .expect("ledger must aggregate");
    let reversed = SemanticReferenceRequestLedger::from_requests(vec![second, duplicate, first])
        .expect("reordered ledger must aggregate");

    assert_eq!(normal, reversed);
    assert_eq!(normal.len(), 2);
    assert_eq!(normal.requests()[0].provenance().len(), 2);
}

#[test]
fn ledger_rejects_identity_and_terminal_conflicts() {
    let base = collected("source", "Target");
    let resolved = base
        .clone()
        .into_resolved(
            id("target"),
            NodeKind::Metadata(MetadataKind::Catalog),
            vec![provenance("resolver", ResolutionState::Resolved)],
        )
        .expect("resolved request must be valid");
    let missing = base
        .clone()
        .into_missing_target(vec![provenance("missing", ResolutionState::Unresolved)])
        .expect("missing request must be valid");
    let mut terminal_ledger = SemanticReferenceRequestLedger::new();
    terminal_ledger.insert(resolved).expect("first terminal request must insert");
    assert!(matches!(
        terminal_ledger.insert(missing),
        Err(SemanticReferenceRequestError::ConflictingTerminalContent { .. })
    ));

    let conflicting_identity = base.clone().with_category_keeping_id(SemanticReferenceCategory::Callable);
    let mut identity_ledger = SemanticReferenceRequestLedger::new();
    identity_ledger.insert(base).expect("base request must insert");
    assert!(matches!(
        identity_ledger.insert(conflicting_identity),
        Err(SemanticReferenceRequestError::ConflictingIdentity { .. })
    ));
}

#[test]
fn query_filters_return_stable_request_order() {
    let metadata = collected("source-a", "Metadata")
        .into_missing_target(vec![provenance("metadata", ResolutionState::Unresolved)])
        .expect("missing request must be valid");
    let query_source = SemanticReferenceRequest::collected(
        id("source-b"),
        SemanticReferenceCategory::QuerySource,
        SemanticReference::Raw("Catalog.Products".to_owned()),
        vec![NodeKind::Metadata(MetadataKind::Catalog)],
        vec![provenance("query", ResolutionState::Unresolved)],
    )
    .expect("query request must be valid")
    .into_partial_workspace(vec![], vec![provenance("partial", ResolutionState::Partial)])
    .expect("partial request must be valid");
    let callable = SemanticReferenceRequest::collected(
        id("source-a"),
        SemanticReferenceCategory::Callable,
        SemanticReference::Name(name("Run")),
        vec![NodeKind::Procedure],
        vec![provenance("call", ResolutionState::Unresolved)],
    )
    .expect("call request must be valid")
    .into_resolved(id("procedure"), NodeKind::Procedure, vec![provenance("call-resolver", ResolutionState::Resolved)])
    .expect("call request must resolve");
    let ledger = SemanticReferenceRequestLedger::from_requests(vec![
        query_source.clone(),
        callable.clone(),
        metadata.clone(),
    ])
    .expect("ledger must be valid");
    let query = ledger.query();

    assert_eq!(query.request(metadata.id()), Some(&metadata));
    assert_eq!(query.by_category(SemanticReferenceCategory::Callable), vec![&callable]);
    assert_eq!(query.by_source(&id("source-a")).len(), 2);
    assert_eq!(query.by_outcome(SemanticReferenceRequestOutcome::MissingTarget), vec![&metadata]);
    assert_eq!(query.by_state(ResolutionState::Partial), vec![&query_source]);
    assert_eq!(query.by_expected_kind(NodeKind::Metadata(MetadataKind::Catalog)).len(), 2);
    let ids = query.all().iter().map(|request| request.id().as_str()).collect::<Vec<_>>();
    assert!(ids.windows(2).all(|pair| pair[0] < pair[1]));
}

#[test]
fn reference_encodings_are_labelled_and_length_prefixed() {
    assert_eq!(SemanticReference::Raw("Catalog.Products".to_owned()).encoding(), "raw;value#16:Catalog.Products");
    assert_eq!(
        SemanticReference::Child { owner: id("owner"), name: name("Name") }.encoding(),
        "child;owner#5:owner;name#4:Name"
    );
    assert_eq!(
        SemanticReference::OwnedChild { owner: id("o"), child: id("c") }.encoding(),
        "owned_child;owner#1:o;child#1:c"
    );
    let request = collected("source", "Target");
    assert_eq!(
        request.id().as_str(),
        "reference_request;source#6:source;category#13:metadata_type;reference#19:name;value#6:Target\
         ;expected_kind#16:metadata.catalog;expected_kind#17:metadata.document"
    );
    assert_eq!(SemanticReferenceCategory::SubsystemMember.as_str(), "subsystem_member");
    assert_eq!(SemanticReferenceRequestOutcome::PartialWorkspace.as_str(), "partial_workspace");
}
