//! Source-independent semantic reference requests: their identity, their
//! lifecycle from collection to a terminal outcome, and a ledger that keeps
//! one request per identity.

use vstd::prelude::*;

use crate::entity::EntityId;
use crate::graph::kind::{metadata_kind_text, node_kind_at, node_kind_at_position, node_kind_code_text, NodeKind};
use crate::graph::provenance::{
    normalize, normalized_provenance, provenance_views, Provenance, ProvenanceView, ResolutionState,
};
use crate::graph::resolution::{component, push_component, reference_text, ReferenceView, SemanticReference};
use crate::ordered::{keyed_views, sort_unique, sorted_unique, values_of, Keyed};
use crate::text::{lex_lt, push_str, text_equal, text_less};

verus! {

/// Stable identity of one semantic reference request, derived from the
/// source node, the category, the target expression and the canonical
/// expected kinds.
#[derive(Debug, Clone, PartialEq, Eq, PartialOrd, Ord, Hash)]
pub struct SemanticReferenceRequestId(String);

impl View for SemanticReferenceRequestId {
    type V = Seq<char>;

    closed spec fn view(&self) -> Seq<char> {
        self.0@
    }
}

impl SemanticReferenceRequestId {
    /// Returns the canonical string representation.
    pub fn as_str(&self) -> (r: &str)
        ensures
            r@ == self@,
    {
        self.0.as_str()
    }

    /// Consumes the identifier and returns its canonical string.
    pub fn into_inner(self) -> (r: String)
        ensures
            r@ == self@,
    {
        self.0
    }

    /// Returns an identical copy of the identifier.
    pub fn duplicate(&self) -> (r: Self)
        ensures
            r@ == self@,
    {
        SemanticReferenceRequestId(self.0.clone())
    }
}

/// Source-independent semantic intent of a reference request.
#[derive(Debug, Clone, Copy, PartialEq, Eq, PartialOrd, Ord, Hash, Structural)]
pub enum SemanticReferenceCategory {
    /// Metadata type reference from an accepted semantic source.
    MetadataType,
    /// Callable symbol reference.
    Callable,
    /// Persistent query source reference.
    QuerySource,
    /// Persistent write target reference.
    WriteTarget,
    /// Protected resource reference.
    ProtectedResource,
    /// Subsystem membership reference.
    SubsystemMember,
    /// Metadata extension target reference.
    ExtensionTarget,
}

/// Stable machine-readable name of a category.
pub open spec fn category_text(c: SemanticReferenceCategory) -> Seq<char> {
    match c {
        SemanticReferenceCategory::MetadataType => "metadata_type"@,
        SemanticReferenceCategory::Callable => "callable"@,
        SemanticReferenceCategory::QuerySource => "query_source"@,
        SemanticReferenceCategory::WriteTarget => "write_target"@,
        SemanticReferenceCategory::ProtectedResource => "protected_resource"@,
        SemanticReferenceCategory::SubsystemMember => "subsystem_member"@,
        SemanticReferenceCategory::ExtensionTarget => "extension_target"@,
    }
}

impl SemanticReferenceCategory {
    /// Returns the stable machine-readable category name.
    pub fn as_str(self) -> (r: &'static str)
        ensures
            r@ == category_text(self),
    {
        match self {
            SemanticReferenceCategory::MetadataType => "metadata_type",
            SemanticReferenceCategory::Callable => "callable",
            SemanticReferenceCategory::QuerySource => "query_source",
            SemanticReferenceCategory::WriteTarget => "write_target",
            SemanticReferenceCategory::ProtectedResource => "protected_resource",
            SemanticReferenceCategory::SubsystemMember => "subsystem_member",
            SemanticReferenceCategory::ExtensionTarget => "extension_target",
        }
    }
}

/// Typed lifecycle outcome of a semantic reference request.
#[derive(Debug, Clone, Copy, PartialEq, Eq, PartialOrd, Ord, Hash, Structural)]
pub enum SemanticReferenceRequestOutcome {
    /// Accepted request collected before resolution.
    Collected,
    /// Request resolved to exactly one compatible target.
    Resolved,
    /// Complete workspace has no matching target.
    MissingTarget,
    /// Explicitly partial workspace cannot complete resolution.
    PartialWorkspace,
    /// Multiple compatible targets remain.
    AmbiguousTarget,
    /// Inspected targets have incompatible semantic kinds.
    IncompatibleTargetKind,
    /// Known owner and child candidates violate ownership.
    InvalidOwnerReference,
}

/// Stable machine-readable name of an outcome.
pub open spec fn outcome_text(o: SemanticReferenceRequestOutcome) -> Seq<char> {
    match o {
        SemanticReferenceRequestOutcome::Collected => "collected"@,
        SemanticReferenceRequestOutcome::Resolved => "resolved"@,
        SemanticReferenceRequestOutcome::MissingTarget => "missing_target"@,
        SemanticReferenceRequestOutcome::PartialWorkspace => "partial_workspace"@,
        SemanticReferenceRequestOutcome::AmbiguousTarget => "ambiguous_target"@,
        SemanticReferenceRequestOutcome::IncompatibleTargetKind => "incompatible_target_kind"@,
        SemanticReferenceRequestOutcome::InvalidOwnerReference => "invalid_owner_reference"@,
    }
}

impl SemanticReferenceRequestOutcome {
    /// Returns the stable machine-readable outcome name.
    pub fn as_str(self) -> (r: &'static str)
        ensures
            r@ == outcome_text(self),
    {
        match self {
            SemanticReferenceRequestOutcome::Collected => "collected",
            SemanticReferenceRequestOutcome::Resolved => "resolved",
            SemanticReferenceRequestOutcome::MissingTarget => "missing_target",
            SemanticReferenceRequestOutcome::PartialWorkspace => "partial_workspace",
            SemanticReferenceRequestOutcome::AmbiguousTarget => "ambiguous_target",
            SemanticReferenceRequestOutcome::IncompatibleTargetKind => "incompatible_target_kind",
            SemanticReferenceRequestOutcome::InvalidOwnerReference => "invalid_owner_reference",
        }
    }
}

/// Encoding of a node kind inside a request identity.
pub open spec fn node_kind_encoding(k: NodeKind) -> Seq<char> {
    match k {
        NodeKind::Metadata(m) => "metadata."@ + metadata_kind_text(m),
        _ => node_kind_code_text(k),
    }
}

/// The expected-kind components of an identity, in order.
pub open spec fn kinds_text(kinds: Seq<NodeKind>) -> Seq<char>
    decreases kinds.len(),
{
    if kinds.len() == 0 {
        Seq::empty()
    } else {
        kinds_text(kinds.drop_last()) + component("expected_kind"@, node_kind_encoding(kinds.last()))
    }
}

/// Identity text of a request.
pub open spec fn identity_text(
    source: Seq<char>,
    category: SemanticReferenceCategory,
    reference: ReferenceView,
    kinds: Seq<NodeKind>,
) -> Seq<char> {
    "reference_request"@ + component("source"@, source) + component("category"@, category_text(category))
        + component("reference"@, reference_text(reference)) + kinds_text(kinds)
}

/// The first `n` node kinds in kind order that occur in `kinds`.
pub open spec fn present_kinds(kinds: Seq<NodeKind>, n: nat) -> Seq<NodeKind>
    decreases n,
{
    if n == 0 {
        Seq::empty()
    } else {
        let rest = present_kinds(kinds, (n - 1) as nat);
        let k = node_kind_at(n - 1);
        if kinds.contains(k) {
            rest.push(k)
        } else {
            rest
        }
    }
}

/// Node kinds in kind order without repeats.
pub open spec fn canonical_kinds(kinds: Seq<NodeKind>) -> Seq<NodeKind> {
    present_kinds(kinds, 43)
}

/// Candidate identifiers in identifier order without repeats.
pub open spec fn canonical_candidates(candidates: Seq<Seq<char>>) -> Seq<Seq<char>> {
    values_of(sorted_unique(candidates.map_values(|c: Seq<char>| ((c, Seq::<char>::empty()), c))))
}

/// What can go wrong with a request, as values.
pub enum RequestFault {
    MissingExpectedKinds,
    MissingProvenance,
    NotApplicableProvenance,
    InvalidStageProvenance(ResolutionState, ResolutionState),
    InvalidLifecycle(ResolutionState, SemanticReferenceRequestOutcome),
    InvalidCandidateCount(SemanticReferenceRequestOutcome, nat, Seq<char>),
    IncompatibleResolvedCandidate(NodeKind, Seq<NodeKind>),
    InvalidTransition(SemanticReferenceRequestOutcome, SemanticReferenceRequestOutcome),
    ConflictingIdentity(Seq<char>),
    ConflictingTerminalContent(Seq<char>),
}

/// The first stage record that is not applicable, or whose state is not
/// `expected`.
pub open spec fn stage_record_fault(p: Seq<ProvenanceView>, expected: ResolutionState) -> Option<RequestFault>
    decreases p.len(),
{
    if p.len() == 0 {
        None
    } else if p[0].4 == ResolutionState::NotApplicable {
        Some(RequestFault::NotApplicableProvenance)
    } else if p[0].4 != expected {
        Some(RequestFault::InvalidStageProvenance(expected, p[0].4))
    } else {
        stage_record_fault(p.drop_first(), expected)
    }
}

/// Stage provenance must exist, and each record must have the state the
/// stage produces.
pub open spec fn stage_fault(p: Seq<ProvenanceView>, expected: ResolutionState) -> Option<RequestFault> {
    if p.len() == 0 {
        Some(RequestFault::MissingProvenance)
    } else {
        stage_record_fault(p, expected)
    }
}

/// The resolution state an outcome requires.
pub open spec fn outcome_state(o: SemanticReferenceRequestOutcome) -> ResolutionState {
    match o {
        SemanticReferenceRequestOutcome::Resolved => ResolutionState::Resolved,
        SemanticReferenceRequestOutcome::PartialWorkspace => ResolutionState::Partial,
        SemanticReferenceRequestOutcome::AmbiguousTarget => ResolutionState::Ambiguous,
        _ => ResolutionState::Unresolved,
    }
}

/// Whether an outcome admits `n` canonical candidates.
pub open spec fn candidate_count_ok(o: SemanticReferenceRequestOutcome, n: nat) -> bool {
    match o {
        SemanticReferenceRequestOutcome::Collected => n == 0,
        SemanticReferenceRequestOutcome::MissingTarget => n == 0,
        SemanticReferenceRequestOutcome::Resolved => n == 1,
        SemanticReferenceRequestOutcome::PartialWorkspace => true,
        SemanticReferenceRequestOutcome::AmbiguousTarget => n >= 2,
        _ => n >= 1,
    }
}

/// Human-readable candidate requirement of an outcome.
pub open spec fn candidate_requirement_text(o: SemanticReferenceRequestOutcome) -> Seq<char> {
    match o {
        SemanticReferenceRequestOutcome::Collected => "no candidates"@,
        SemanticReferenceRequestOutcome::MissingTarget => "no candidates"@,
        SemanticReferenceRequestOutcome::Resolved => "exactly one candidate"@,
        SemanticReferenceRequestOutcome::PartialWorkspace => "any canonical candidates"@,
        SemanticReferenceRequestOutcome::AmbiguousTarget => "at least two candidates"@,
        _ => "at least one candidate"@,
    }
}

/// A lifecycle whose state, outcome and candidate count contradict each
/// other.
pub open spec fn lifecycle_fault(state: ResolutionState, o: SemanticReferenceRequestOutcome, n: nat) -> Option<
    RequestFault,
> {
    if state != outcome_state(o) || state == ResolutionState::NotApplicable {
        Some(RequestFault::InvalidLifecycle(state, o))
    } else if !candidate_count_ok(o, n) {
        Some(RequestFault::InvalidCandidateCount(o, n, candidate_requirement_text(o)))
    } else {
        None
    }
}

/// Whether some record is not applicable.
pub open spec fn has_not_applicable(p: Seq<ProvenanceView>) -> bool {
    exists|i: int| 0 <= i < p.len() && (#[trigger] p[i]).4 == ResolutionState::NotApplicable
}

/// Canonical request provenance: present, never not applicable, ordered
/// without repeats.
pub open spec fn canonical_provenance(p: Seq<ProvenanceView>) -> Result<Seq<ProvenanceView>, RequestFault> {
    if p.len() == 0 {
        Err(RequestFault::MissingProvenance)
    } else if has_not_applicable(p) {
        Err(RequestFault::NotApplicableProvenance)
    } else {
        Ok(normalize(p))
    }
}

/// Request view: identifier, source node, category, target expression,
/// expected kinds, candidates, state, outcome and provenance.
pub type RequestView = (
    Seq<char>,
    Seq<char>,
    SemanticReferenceCategory,
    ReferenceView,
    Seq<NodeKind>,
    Seq<Seq<char>>,
    ResolutionState,
    SemanticReferenceRequestOutcome,
    Seq<ProvenanceView>,
);

/// Identity view: source node, category, target expression, canonical
/// expected kinds.
pub type IdentityView = (Seq<char>, SemanticReferenceCategory, ReferenceView, Seq<NodeKind>);

/// A request with the given identity and lifecycle, its candidates and
/// provenance made canonical, or what is wrong with them.
pub open spec fn build_request(
    identity: IdentityView,
    candidates: Seq<Seq<char>>,
    state: ResolutionState,
    outcome: SemanticReferenceRequestOutcome,
    provenance: Seq<ProvenanceView>,
) -> Result<RequestView, RequestFault> {
    let c = canonical_candidates(candidates);
    match lifecycle_fault(state, outcome, c.len()) {
        Some(f) => Err(f),
        None => match canonical_provenance(provenance) {
            Err(f) => Err(f),
            Ok(p) => Ok(
                (
                    identity_text(identity.0, identity.1, identity.2, identity.3),
                    identity.0,
                    identity.1,
                    identity.2,
                    identity.3,
                    c,
                    state,
                    outcome,
                    p,
                ),
            ),
        },
    }
}

/// An identity with canonical expected kinds, which must not be empty.
pub open spec fn make_identity(
    source: Seq<char>,
    category: SemanticReferenceCategory,
    reference: ReferenceView,
    kinds: Seq<NodeKind>,
) -> Result<IdentityView, RequestFault> {
    let k = canonical_kinds(kinds);
    if k.len() == 0 {
        Err(RequestFault::MissingExpectedKinds)
    } else {
        Ok((source, category, reference, k))
    }
}

/// A request created at a stage: stage provenance is checked first, then
/// the identity, then the lifecycle.
pub open spec fn staged_request(
    source: Seq<char>,
    category: SemanticReferenceCategory,
    reference: ReferenceView,
    kinds: Seq<NodeKind>,
    candidates: Seq<Seq<char>>,
    state: ResolutionState,
    outcome: SemanticReferenceRequestOutcome,
    provenance: Seq<ProvenanceView>,
) -> Result<RequestView, RequestFault> {
    match stage_fault(provenance, state) {
        Some(f) => Err(f),
        None => match make_identity(source, category, reference, kinds) {
            Err(f) => Err(f),
            Ok(identity) => build_request(identity, candidates, state, outcome, provenance),
        },
    }
}

/// A collected request moved to a terminal outcome with resolver
/// provenance.
pub open spec fn transition_request(
    r: RequestView,
    outcome: SemanticReferenceRequestOutcome,
    candidates: Seq<Seq<char>>,
    state: ResolutionState,
    provenance: Seq<ProvenanceView>,
) -> Result<RequestView, RequestFault> {
    if r.7 != SemanticReferenceRequestOutcome::Collected {
        Err(RequestFault::InvalidTransition(r.7, outcome))
    } else {
        match stage_fault(provenance, state) {
            Some(f) => Err(f),
            None => build_request((r.1, r.2, r.3, r.4), candidates, state, outcome, r.8 + provenance),
        }
    }
}

/// Checked invariant or ledger aggregation error for reference requests.
#[derive(Debug, Clone, PartialEq, Eq)]
pub enum SemanticReferenceRequestError {
    /// A semantic request must declare at least one expected target kind.
    MissingExpectedKinds,
    /// A semantic request or lifecycle stage must retain provenance.
    MissingProvenance,
    /// Request provenance cannot use `NotApplicable` resolution state.
    NotApplicableProvenance,
    /// Stage provenance does not match the state produced by the stage.
    InvalidStageProvenance {
        /// Required stage resolution state.
        expected: ResolutionState,
        /// Observed provenance resolution state.
        actual: ResolutionState,
    },
    /// Lifecycle state and typed outcome contradict each other.
    InvalidLifecycle {
        /// Supplied resolution state.
        state: ResolutionState,
        /// Supplied typed outcome.
        outcome: SemanticReferenceRequestOutcome,
    },
    /// Candidate cardinality contradicts the typed outcome.
    InvalidCandidateCount {
        /// Typed request outcome.
        outcome: SemanticReferenceRequestOutcome,
        /// Actual canonical candidate count.
        actual: usize,
        /// Human-readable cardinality requirement.
        required: &'static str,
    },
    /// Resolved target kind is not one of the accepted kinds.
    IncompatibleResolvedCandidate {
        /// Actual resolved target kind.
        actual: NodeKind,
        /// Canonical expected target kinds.
        expected: Vec<NodeKind>,
    },
    /// Only collected requests may enter a terminal state.
    InvalidTransition {
        /// Existing outcome.
        from: SemanticReferenceRequestOutcome,
        /// Requested terminal outcome.
        to: SemanticReferenceRequestOutcome,
    },
    /// Two values share an identifier but disagree on immutable identity data.
    ConflictingIdentity {
        /// Colliding request identifier.
        id: SemanticReferenceRequestId,
    },
    /// Duplicate observations disagree on terminal lifecycle content.
    ConflictingTerminalContent {
        /// Conflicting request identifier.
        id: SemanticReferenceRequestId,
    },
}

/// The fault an error reports.
pub open spec fn request_fault(e: SemanticReferenceRequestError) -> RequestFault {
    match e {
        SemanticReferenceRequestError::MissingExpectedKinds => RequestFault::MissingExpectedKinds,
        SemanticReferenceRequestError::MissingProvenance => RequestFault::MissingProvenance,
        SemanticReferenceRequestError::NotApplicableProvenance => RequestFault::NotApplicableProvenance,
        SemanticReferenceRequestError::InvalidStageProvenance { expected, actual } => RequestFault::InvalidStageProvenance(
            expected,
            actual,
        ),
        SemanticReferenceRequestError::InvalidLifecycle { state, outcome } => RequestFault::InvalidLifecycle(
            state,
            outcome,
        ),
        SemanticReferenceRequestError::InvalidCandidateCount { outcome, actual, required } => RequestFault::InvalidCandidateCount(
            outcome,
            actual as nat,
            required@,
        ),
        SemanticReferenceRequestError::IncompatibleResolvedCandidate { actual, expected } => RequestFault::IncompatibleResolvedCandidate(
            actual,
            expected@,
        ),
        SemanticReferenceRequestError::InvalidTransition { from, to } => RequestFault::InvalidTransition(from, to),
        SemanticReferenceRequestError::ConflictingIdentity { id } => RequestFault::ConflictingIdentity(id@),
        SemanticReferenceRequestError::ConflictingTerminalContent { id } => RequestFault::ConflictingTerminalContent(
            id@,
        ),
    }
}

/// Identity content of a request: source node, category, target
/// expression and canonical expected kinds.
#[derive(Debug, Clone, PartialEq, Eq)]
pub struct ReferenceRequestIdentity {
    source_node: EntityId,
    category: SemanticReferenceCategory,
    reference: SemanticReference,
    expected_kinds: Vec<NodeKind>,
}

impl View for ReferenceRequestIdentity {
    type V = IdentityView;

    closed spec fn view(&self) -> IdentityView {
        (self.source_node@, self.category, self.reference@, self.expected_kinds@)
    }
}

/// Node kinds in kind order without repeats.
pub(crate) fn canonical_kind_list(kinds: Vec<NodeKind>) -> (r: Vec<NodeKind>)
    ensures
        r@ == canonical_kinds(kinds@),
{
    let mut out: Vec<NodeKind> = Vec::new();
    let mut i: usize = 0;
    while i < 43
        invariant
            i <= 43,
            out@ == present_kinds(kinds@, i as nat),
        decreases 43 - i,
    {
        let k = node_kind_at_position(i);
        if kinds_contain(kinds.as_slice(), k) {
            out.push(k);
        }
        i = i + 1;
    }
    out
}

/// Views of candidate identifiers.
pub open spec fn id_views(v: Seq<EntityId>) -> Seq<Seq<char>> {
    v.map_values(|c: EntityId| c@)
}

/// Candidate identifiers in identifier order without repeats.
pub(crate) fn canonical_candidate_list(candidates: Vec<EntityId>) -> (r: Vec<EntityId>)
    ensures
        id_views(r@) == canonical_candidates(id_views(candidates@)),
{
    let ghost all = id_views(candidates@);
    let ghost keyed = all.map_values(|c: Seq<char>| ((c, Seq::<char>::empty()), c));
    let mut rest = candidates;
    let mut items: Vec<Keyed<EntityId>> = Vec::new();
    let total = rest.len();
    while rest.len() > 0
        invariant
            items@.len() + rest@.len() == total,
            total == all.len(),
            keyed == all.map_values(|c: Seq<char>| ((c, Seq::<char>::empty()), c)),
            id_views(rest@) == all.skip(items@.len() as int),
            keyed_views(items@) == keyed.take(items@.len() as int),
        decreases rest@.len(),
    {
        let ghost before = rest@;
        let ghost n: int = items@.len() as int;
        let c = rest.remove(0);
        assert(id_views(rest@) =~= all.skip(n + 1)) by {
            assert forall|j: int| 0 <= j < rest@.len() implies id_views(rest@)[j] == all.skip(n + 1)[j] by {
                assert(rest@[j] == before[j + 1]);
                assert(id_views(before)[j + 1] == all.skip(n)[j + 1]);
            }
        }
        assert(id_views(before)[0] == all[n]);
        let first = c.as_str().to_owned();
        let ghost done = items@;
        items.push(Keyed { first, second: String::new(), value: c });
        assert(keyed.take(n + 1) =~= keyed.take(n).push(keyed[n]));
        assert(keyed_views(items@) =~= keyed_views(done).push(keyed[n]));
    }
    assert(keyed.take(total as int) =~= keyed);
    let sorted = sort_unique(items);
    let r = crate::ordered::into_values(sorted);
    assert(id_views(r@) =~= r@.map_values(|v: EntityId| v@));
    r
}

impl ReferenceRequestIdentity {
    /// Creates identity content with canonical expected kinds, which must
    /// not be empty.
    pub fn new(
        source_node: EntityId,
        category: SemanticReferenceCategory,
        reference: SemanticReference,
        expected_kinds: Vec<NodeKind>,
    ) -> (r: Result<Self, SemanticReferenceRequestError>)
        ensures
            match make_identity(source_node@, category, reference@, expected_kinds@) {
                Ok(i) => r is Ok && r->Ok_0@ == i,
                Err(f) => r is Err && request_fault(r->Err_0) == f,
            },
    {
        let expected_kinds = canonical_kind_list(expected_kinds);
        if expected_kinds.len() == 0 {
            return Err(SemanticReferenceRequestError::MissingExpectedKinds);
        }
        Ok(ReferenceRequestIdentity { source_node, category, reference, expected_kinds })
    }
}

/// Encoding of a node kind inside a request identity.
fn push_node_kind_encoding(target: &mut String, k: NodeKind)
    ensures
        final(target)@ == old(target)@ + node_kind_encoding(k),
{
    let ghost start = target@;
    match k {
        NodeKind::Metadata(m) => {
            push_str(target, "metadata.");
            push_str(target, m.as_str());
        },
        _ => {
            push_str(target, crate::graph::kind::node_kind_code(k));
        },
    }
    assert(target@ =~= start + node_kind_encoding(k));
}

/// Builds the identifier of identity content.
fn identity_id(identity: &ReferenceRequestIdentity) -> (r: SemanticReferenceRequestId)
    ensures
        r@ == identity_text(identity@.0, identity@.1, identity@.2, identity@.3),
{
    let ghost v = identity@;
    let mut value = String::new();
    push_str(&mut value, "reference_request");
    push_component(&mut value, "source", identity.source_node.as_str());
    push_component(&mut value, "category", identity.category.as_str());
    let reference = identity.reference.encoding();
    push_component(&mut value, "reference", reference.as_str());
    let ghost head = value@;
    assert(head =~= "reference_request"@ + component("source"@, v.0) + component("category"@, category_text(v.1))
        + component("reference"@, reference_text(v.2)));
    let mut i: usize = 0;
    while i < identity.expected_kinds.len()
        invariant
            i <= identity.expected_kinds@.len(),
            v == identity@,
            value@ == head + kinds_text(v.3.take(i as int)),
        decreases identity.expected_kinds@.len() - i,
    {
        let mut encoded = String::new();
        push_node_kind_encoding(&mut encoded, identity.expected_kinds[i]);
        push_component(&mut value, "expected_kind", encoded.as_str());
        assert(v.3.take(i + 1).drop_last() =~= v.3.take(i as int));
        i = i + 1;
        assert(value@ =~= head + kinds_text(v.3.take(i as int)));
    }
    assert(v.3.take(i as int) =~= v.3);
    SemanticReferenceRequestId(value)
}

/// Checks that stage provenance exists and each record has the state the
/// stage produces.
fn validate_stage_provenance(provenance: &[Provenance], expected: ResolutionState) -> (r: Result<
    (),
    SemanticReferenceRequestError,
>)
    ensures
        match stage_fault(provenance_views(provenance@), expected) {
            None => r is Ok,
            Some(f) => r is Err && request_fault(r->Err_0) == f,
        },
{
    let ghost pv = provenance_views(provenance@);
    if provenance.len() == 0 {
        return Err(SemanticReferenceRequestError::MissingProvenance);
    }
    let mut i: usize = 0;
    assert(pv.skip(0) =~= pv);
    while i < provenance.len()
        invariant
            i <= provenance@.len(),
            pv == provenance_views(provenance@),
            pv.len() > 0,
            stage_record_fault(pv, expected) == stage_record_fault(pv.skip(i as int), expected),
        decreases provenance@.len() - i,
    {
        assert(pv.skip(i as int).drop_first() =~= pv.skip(i + 1));
        assert(pv.skip(i as int)[0] == provenance@[i as int]@);
        let state = provenance[i].resolution();
        if state == ResolutionState::NotApplicable {
            return Err(SemanticReferenceRequestError::NotApplicableProvenance);
        }
        if state != expected {
            return Err(SemanticReferenceRequestError::InvalidStageProvenance { expected, actual: state });
        }
        i = i + 1;
    }
    assert(pv.skip(i as int).len() == 0);
    Ok(())
}

/// Checks that state, outcome and candidate count agree.
fn validate_lifecycle(state: ResolutionState, outcome: SemanticReferenceRequestOutcome, candidate_count: usize) -> (r:
    Result<(), SemanticReferenceRequestError>)
    ensures
        match lifecycle_fault(state, outcome, candidate_count as nat) {
            None => r is Ok,
            Some(f) => r is Err && request_fault(r->Err_0) == f,
        },
{
    let expected_state = match outcome {
        SemanticReferenceRequestOutcome::Resolved => ResolutionState::Resolved,
        SemanticReferenceRequestOutcome::PartialWorkspace => ResolutionState::Partial,
        SemanticReferenceRequestOutcome::AmbiguousTarget => ResolutionState::Ambiguous,
        _ => ResolutionState::Unresolved,
    };
    if state != expected_state || state == ResolutionState::NotApplicable {
        return Err(SemanticReferenceRequestError::InvalidLifecycle { state, outcome });
    }
    let valid = match outcome {
        SemanticReferenceRequestOutcome::Collected => candidate_count == 0,
        SemanticReferenceRequestOutcome::MissingTarget => candidate_count == 0,
        SemanticReferenceRequestOutcome::Resolved => candidate_count == 1,
        SemanticReferenceRequestOutcome::PartialWorkspace => true,
        SemanticReferenceRequestOutcome::AmbiguousTarget => candidate_count >= 2,
        _ => candidate_count >= 1,
    };
    if valid {
        Ok(())
    } else {
        Err(
            SemanticReferenceRequestError::InvalidCandidateCount {
                outcome,
                actual: candidate_count,
                required: candidate_requirement(outcome),
            },
        )
    }
}

/// Human-readable candidate requirement of an outcome.
fn candidate_requirement(outcome: SemanticReferenceRequestOutcome) -> (r: &'static str)
    ensures
        r@ == candidate_requirement_text(outcome),
{
    match outcome {
        SemanticReferenceRequestOutcome::Collected => "no candidates",
        SemanticReferenceRequestOutcome::MissingTarget => "no candidates",
        SemanticReferenceRequestOutcome::Resolved => "exactly one candidate",
        SemanticReferenceRequestOutcome::PartialWorkspace => "any canonical candidates",
        SemanticReferenceRequestOutcome::AmbiguousTarget => "at least two candidates",
        _ => "at least one candidate",
    }
}

/// Canonical request provenance, or why there is none.
fn canonical_provenance_list(provenance: Vec<Provenance>) -> (r: Result<Vec<Provenance>, SemanticReferenceRequestError>)
    ensures
        match canonical_provenance(provenance_views(provenance@)) {
            Ok(p) => r is Ok && provenance_views(r->Ok_0@) == p,
            Err(f) => r is Err && request_fault(r->Err_0) == f,
        },
{
    let ghost pv = provenance_views(provenance@);
    if provenance.len() == 0 {
        return Err(SemanticReferenceRequestError::MissingProvenance);
    }
    let mut i: usize = 0;
    while i < provenance.len()
        invariant
            i <= provenance@.len(),
            pv == provenance_views(provenance@),
            forall|j: int| 0 <= j < i ==> (#[trigger] pv[j]).4 != ResolutionState::NotApplicable,
        decreases provenance@.len() - i,
    {
        assert(pv[i as int] == provenance@[i as int]@);
        if provenance[i].resolution() == ResolutionState::NotApplicable {
            return Err(SemanticReferenceRequestError::NotApplicableProvenance);
        }
        i = i + 1;
    }
    Ok(normalized_provenance(provenance.as_slice()))
}

/// Immutable source-independent semantic reference request.
#[derive(Debug, Clone, PartialEq, Eq)]
pub struct SemanticReferenceRequest {
    id: SemanticReferenceRequestId,
    source_node: EntityId,
    category: SemanticReferenceCategory,
    reference: SemanticReference,
    expected_kinds: Vec<NodeKind>,
    candidates: Vec<EntityId>,
    state: ResolutionState,
    outcome: SemanticReferenceRequestOutcome,
    provenance: Vec<Provenance>,
}

impl View for SemanticReferenceRequest {
    type V = RequestView;

    closed spec fn view(&self) -> RequestView {
        (
            self.id@,
            self.source_node@,
            self.category,
            self.reference@,
            self.expected_kinds@,
            id_views(self.candidates@),
            self.state,
            self.outcome,
            provenance_views(self.provenance@),
        )
    }
}

/// Whether `kinds` holds `kind`.
fn kinds_contain(kinds: &[NodeKind], kind: NodeKind) -> (r: bool)
    ensures
        r == kinds@.contains(kind),
{
    let mut i: usize = 0;
    while i < kinds.len()
        invariant
            i <= kinds@.len(),
            forall|j: int| 0 <= j < i ==> kinds@[j] != kind,
        decreases kinds@.len() - i,
    {
        if kinds[i] == kind {
            return true;
        }
        i = i + 1;
    }
    false
}

/// Whether two kind lists are equal.
pub(crate) fn same_kinds(a: &[NodeKind], b: &[NodeKind]) -> (r: bool)
    ensures
        r == (a@ == b@),
{
    if a.len() != b.len() {
        return false;
    }
    let mut i: usize = 0;
    while i < a.len()
        invariant
            i <= a@.len(),
            a@.len() == b@.len(),
            forall|j: int| 0 <= j < i ==> a@[j] == b@[j],
        decreases a@.len() - i,
    {
        if a[i] != b[i] {
            return false;
        }
        i = i + 1;
    }
    assert(a@ =~= b@);
    true
}

/// Whether two identifier lists are equal.
pub(crate) fn same_ids(a: &[EntityId], b: &[EntityId]) -> (r: bool)
    ensures
        r == (id_views(a@) == id_views(b@)),
{
    if a.len() != b.len() {
        assert(id_views(a@).len() != id_views(b@).len());
        return false;
    }
    let mut i: usize = 0;
    while i < a.len()
        invariant
            i <= a@.len(),
            a@.len() == b@.len(),
            forall|j: int| 0 <= j < i ==> a@[j]@ == b@[j]@,
        decreases a@.len() - i,
    {
        if !text_equal(a[i].as_str(), b[i].as_str()) {
            assert(id_views(a@)[i as int] != id_views(b@)[i as int]);
            return false;
        }
        i = i + 1;
    }
    assert(id_views(a@) =~= id_views(b@));
    true
}

impl SemanticReferenceRequest {
    /// Builds a request from identity content and a lifecycle: candidates
    /// are ordered without repeats, the lifecycle must be consistent, and
    /// provenance must exist, never be not applicable, and is ordered
    /// without repeats.
    pub fn new(
        identity: ReferenceRequestIdentity,
        candidates: Vec<EntityId>,
        state: ResolutionState,
        outcome: SemanticReferenceRequestOutcome,
        provenance: Vec<Provenance>,
    ) -> (r: Result<Self, SemanticReferenceRequestError>)
        ensures
            match build_request(identity@, id_views(candidates@), state, outcome, provenance_views(provenance@)) {
                Ok(v) => r is Ok && r->Ok_0@ == v,
                Err(f) => r is Err && request_fault(r->Err_0) == f,
            },
    {
        let candidates = canonical_candidate_list(candidates);
        validate_lifecycle(state, outcome, candidates.len())?;
        let provenance = canonical_provenance_list(provenance)?;
        let id = identity_id(&identity);
        let ReferenceRequestIdentity { source_node, category, reference, expected_kinds } = identity;
        Ok(
            SemanticReferenceRequest {
                id,
                source_node,
                category,
                reference,
                expected_kinds,
                candidates,
                state,
                outcome,
                provenance,
            },
        )
    }

    /// Creates an accepted unresolved request with collection provenance.
    pub fn collected(
        source_node: EntityId,
        category: SemanticReferenceCategory,
        reference: SemanticReference,
        expected_kinds: Vec<NodeKind>,
        provenance: Vec<Provenance>,
    ) -> (r: Result<Self, SemanticReferenceRequestError>)
        ensures
            match staged_request(
                source_node@,
                category,
                reference@,
                expected_kinds@,
                Seq::empty(),
                ResolutionState::Unresolved,
                SemanticReferenceRequestOutcome::Collected,
                provenance_views(provenance@),
            ) {
                Ok(v) => r is Ok && r->Ok_0@ == v,
                Err(f) => r is Err && request_fault(r->Err_0) == f,
            },
    {
        validate_stage_provenance(provenance.as_slice(), ResolutionState::Unresolved)?;
        let identity = ReferenceRequestIdentity::new(source_node, category, reference, expected_kinds)?;
        let none: Vec<EntityId> = Vec::new();
        assert(id_views(none@) =~= Seq::<Seq<char>>::empty());
        Self::new(identity, none, ResolutionState::Unresolved, SemanticReferenceRequestOutcome::Collected, provenance)
    }

    /// Creates a request proven partial at collection time.
    pub fn partial_workspace(
        source_node: EntityId,
        category: SemanticReferenceCategory,
        reference: SemanticReference,
        expected_kinds: Vec<NodeKind>,
        candidates: Vec<EntityId>,
        provenance: Vec<Provenance>,
    ) -> (r: Result<Self, SemanticReferenceRequestError>)
        ensures
            match staged_request(
                source_node@,
                category,
                reference@,
                expected_kinds@,
                id_views(candidates@),
                ResolutionState::Partial,
                SemanticReferenceRequestOutcome::PartialWorkspace,
                provenance_views(provenance@),
            ) {
                Ok(v) => r is Ok && r->Ok_0@ == v,
                Err(f) => r is Err && request_fault(r->Err_0) == f,
            },
    {
        validate_stage_provenance(provenance.as_slice(), ResolutionState::Partial)?;
        let identity = ReferenceRequestIdentity::new(source_node, category, reference, expected_kinds)?;
        Self::new(identity, candidates, ResolutionState::Partial, SemanticReferenceRequestOutcome::PartialWorkspace, provenance)
    }

    fn transition(
        self,
        outcome: SemanticReferenceRequestOutcome,
        candidates: Vec<EntityId>,
        state: ResolutionState,
        provenance: Vec<Provenance>,
    ) -> (r: Result<Self, SemanticReferenceRequestError>)
        ensures
            match transition_request(self@, outcome, id_views(candidates@), state, provenance_views(provenance@)) {
                Ok(v) => r is Ok && r->Ok_0@ == v,
                Err(f) => r is Err && request_fault(r->Err_0) == f,
            },
    {
        if self.outcome != SemanticReferenceRequestOutcome::Collected {
            return Err(SemanticReferenceRequestError::InvalidTransition { from: self.outcome, to: outcome });
        }
        validate_stage_provenance(provenance.as_slice(), state)?;
        let ghost old_view = self@;
        let SemanticReferenceRequest {
            id: _,
            source_node,
            category,
            reference,
            expected_kinds,
            candidates: _,
            state: _,
            outcome: _,
            provenance: existing,
        } = self;
        let mut combined = existing;
        let mut resolver = provenance;
        let ghost first = provenance_views(combined@);
        let ghost second = provenance_views(resolver@);
        combined.append(&mut resolver);
        assert(provenance_views(combined@) =~= first + second);
        let identity = ReferenceRequestIdentity { source_node, category, reference, expected_kinds };
        assert(identity@ == (old_view.1, old_view.2, old_view.3, old_view.4));
        Self::new(identity, candidates, state, outcome, combined)
    }

    /// Resolves a collected request to one compatible candidate.
    pub fn into_resolved(self, candidate: EntityId, candidate_kind: NodeKind, provenance: Vec<Provenance>) -> (r:
        Result<Self, SemanticReferenceRequestError>)
        ensures
            if !self@.4.contains(candidate_kind) {
                r is Err && request_fault(r->Err_0) == RequestFault::IncompatibleResolvedCandidate(
                    candidate_kind,
                    self@.4,
                )
            } else {
                match transition_request(
                    self@,
                    SemanticReferenceRequestOutcome::Resolved,
                    seq![candidate@],
                    ResolutionState::Resolved,
                    provenance_views(provenance@),
                ) {
                    Ok(v) => r is Ok && r->Ok_0@ == v,
                    Err(f) => r is Err && request_fault(r->Err_0) == f,
                }
            },
    {
        if !kinds_contain(self.expected_kinds.as_slice(), candidate_kind) {
            return Err(
                SemanticReferenceRequestError::IncompatibleResolvedCandidate {
                    actual: candidate_kind,
                    expected: self.expected_kinds.clone(),
                },
            );
        }
        let mut candidates: Vec<EntityId> = Vec::new();
        candidates.push(candidate);
        assert(id_views(candidates@) =~= seq![candidate@]);
        self.transition(SemanticReferenceRequestOutcome::Resolved, candidates, ResolutionState::Resolved, provenance)
    }

    /// Completes a collected request as missing in a complete workspace.
    pub fn into_missing_target(self, provenance: Vec<Provenance>) -> (r: Result<Self, SemanticReferenceRequestError>)
        ensures
            match transition_request(
                self@,
                SemanticReferenceRequestOutcome::MissingTarget,
                Seq::empty(),
                ResolutionState::Unresolved,
                provenance_views(provenance@),
            ) {
                Ok(v) => r is Ok && r->Ok_0@ == v,
                Err(f) => r is Err && request_fault(r->Err_0) == f,
            },
    {
        let none: Vec<EntityId> = Vec::new();
        assert(id_views(none@) =~= Seq::<Seq<char>>::empty());
        self.transition(SemanticReferenceRequestOutcome::MissingTarget, none, ResolutionState::Unresolved, provenance)
    }

    /// Completes a collected request as partial in an incomplete workspace.
    pub fn into_partial_workspace(self, candidates: Vec<EntityId>, provenance: Vec<Provenance>) -> (r: Result<
        Self,
        SemanticReferenceRequestError,
    >)
        ensures
            match transition_request(
                self@,
                SemanticReferenceRequestOutcome::PartialWorkspace,
                id_views(candidates@),
                ResolutionState::Partial,
                provenance_views(provenance@),
            ) {
                Ok(v) => r is Ok && r->Ok_0@ == v,
                Err(f) => r is Err && request_fault(r->Err_0) == f,
            },
    {
        self.transition(SemanticReferenceRequestOutcome::PartialWorkspace, candidates, ResolutionState::Partial, provenance)
    }

    /// Completes a collected request with multiple compatible candidates.
    pub fn into_ambiguous_target(self, candidates: Vec<EntityId>, provenance: Vec<Provenance>) -> (r: Result<
        Self,
        SemanticReferenceRequestError,
    >)
        ensures
            match transition_request(
                self@,
                SemanticReferenceRequestOutcome::AmbiguousTarget,
                id_views(candidates@),
                ResolutionState::Ambiguous,
                provenance_views(provenance@),
            ) {
                Ok(v) => r is Ok && r->Ok_0@ == v,
                Err(f) => r is Err && request_fault(r->Err_0) == f,
            },
    {
        self.transition(SemanticReferenceRequestOutcome::AmbiguousTarget, candidates, ResolutionState::Ambiguous, provenance)
    }

    /// Completes a collected request with incompatible inspected targets.
    pub fn into_incompatible_target_kind(self, candidates: Vec<EntityId>, provenance: Vec<Provenance>) -> (r: Result<
        Self,
        SemanticReferenceRequestError,
    >)
        ensures
            match transition_request(
                self@,
                SemanticReferenceRequestOutcome::IncompatibleTargetKind,
                id_views(candidates@),
                ResolutionState::Unresolved,
                provenance_views(provenance@),
            ) {
                Ok(v) => r is Ok && r->Ok_0@ == v,
                Err(f) => r is Err && request_fault(r->Err_0) == f,
            },
    {
        self.transition(
            SemanticReferenceRequestOutcome::IncompatibleTargetKind,
            candidates,
            ResolutionState::Unresolved,
            provenance,
        )
    }

    /// Completes a collected request with an invalid owner relationship.
    pub fn into_invalid_owner_reference(self, candidates: Vec<EntityId>, provenance: Vec<Provenance>) -> (r: Result<
        Self,
        SemanticReferenceRequestError,
    >)
        ensures
            match transition_request(
                self@,
                SemanticReferenceRequestOutcome::InvalidOwnerReference,
                id_views(candidates@),
                ResolutionState::Unresolved,
                provenance_views(provenance@),
            ) {
                Ok(v) => r is Ok && r->Ok_0@ == v,
                Err(f) => r is Err && request_fault(r->Err_0) == f,
            },
    {
        self.transition(
            SemanticReferenceRequestOutcome::InvalidOwnerReference,
            candidates,
            ResolutionState::Unresolved,
            provenance,
        )
    }

    /// Returns the stable request identity.
    pub fn id(&self) -> (r: &SemanticReferenceRequestId)
        ensures
            r@ == self@.0,
    {
        &self.id
    }

    /// Returns the semantic source node identity.
    pub fn source_node(&self) -> (r: &EntityId)
        ensures
            r@ == self@.1,
    {
        &self.source_node
    }

    /// Returns the semantic request category.
    pub fn category(&self) -> (r: SemanticReferenceCategory)
        ensures
            r == self@.2,
    {
        self.category
    }

    /// Returns the canonical typed target expression.
    pub fn reference(&self) -> (r: &SemanticReference)
        ensures
            r@ == self@.3,
    {
        &self.reference
    }

    /// Returns canonical accepted target kinds.
    pub fn expected_kinds(&self) -> (r: &[NodeKind])
        ensures
            r@ == self@.4,
    {
        self.expected_kinds.as_slice()
    }

    /// Returns canonical candidate identities.
    pub fn candidates(&self) -> (r: &[EntityId])
        ensures
            id_views(r@) == self@.5,
    {
        self.candidates.as_slice()
    }

    /// Returns the current resolution state.
    pub fn state(&self) -> (r: ResolutionState)
        ensures
            r == self@.6,
    {
        self.state
    }

    /// Returns the typed lifecycle outcome.
    pub fn outcome(&self) -> (r: SemanticReferenceRequestOutcome)
        ensures
            r == self@.7,
    {
        self.outcome
    }

    /// Returns canonical collection and resolver provenance.
    pub fn provenance(&self) -> (r: &[Provenance])
        ensures
            provenance_views(r@) == self@.8,
    {
        self.provenance.as_slice()
    }

    /// Returns the request under another category with its identifier
    /// unchanged, so that its identity content no longer matches its
    /// identifier; a ledger that already holds the unchanged request rejects it.
    pub fn with_category_keeping_id(self, category: SemanticReferenceCategory) -> (r: Self)
        ensures
            r@ == (self@.0, self@.1, category, self@.3, self@.4, self@.5, self@.6, self@.7, self@.8),
    {
        let mut request = self;
        request.category = category;
        request
    }

    fn has_same_identity_content(&self, other: &Self) -> (r: bool)
        ensures
            r == (self@.1 == other@.1 && self@.2 == other@.2 && self@.3 == other@.3 && self@.4 == other@.4),
    {
        text_equal(self.source_node.as_str(), other.source_node.as_str()) && self.category == other.category
            && self.reference.same_as(&other.reference) && same_kinds(
            self.expected_kinds.as_slice(),
            other.expected_kinds.as_slice(),
        )
    }

    fn has_same_terminal_content(&self, other: &Self) -> (r: bool)
        ensures
            r == (self@.5 == other@.5 && self@.6 == other@.6 && self@.7 == other@.7),
    {
        same_ids(self.candidates.as_slice(), other.candidates.as_slice()) && self.state == other.state
            && self.outcome == other.outcome
    }
}

/// First position of `rs` from `i` on whose identifier does not sort
/// before `id`.
pub open spec fn request_pos(rs: Seq<RequestView>, id: Seq<char>, i: int) -> int
    decreases rs.len() - i,
{
    if 0 <= i < rs.len() && lex_lt(rs[i].0, id) {
        request_pos(rs, id, i + 1)
    } else {
        i
    }
}

/// The ledger once `r` is observed, and whether its identity is new: a
/// known identity must agree on identity and terminal content, and merges
/// provenance; a new identity is inserted in identifier order.
pub open spec fn ledger_insert(rs: Seq<RequestView>, r: RequestView) -> Result<(Seq<RequestView>, bool), RequestFault> {
    let p = request_pos(rs, r.0, 0);
    if 0 <= p < rs.len() && rs[p].0 == r.0 {
        let e = rs[p];
        if !(e.1 == r.1 && e.2 == r.2 && e.3 == r.3 && e.4 == r.4) {
            Err(RequestFault::ConflictingIdentity(r.0))
        } else if !(e.5 == r.5 && e.6 == r.6 && e.7 == r.7) {
            Err(RequestFault::ConflictingTerminalContent(r.0))
        } else {
            match canonical_provenance(e.8 + r.8) {
                Err(f) => Err(f),
                Ok(merged) => Ok((rs.update(p, (e.0, e.1, e.2, e.3, e.4, e.5, e.6, e.7, merged)), false)),
            }
        }
    } else {
        Ok((rs.insert(p, r), true))
    }
}

/// The ledger of the observations `rs` in order, or the first conflict.
pub open spec fn ledger_of(rs: Seq<RequestView>) -> Result<Seq<RequestView>, RequestFault>
    decreases rs.len(),
{
    if rs.len() == 0 {
        Ok(Seq::empty())
    } else {
        match ledger_of(rs.drop_last()) {
            Err(f) => Err(f),
            Ok(l) => match ledger_insert(l, rs.last()) {
                Err(f) => Err(f),
                Ok(x) => Ok(x.0),
            },
        }
    }
}

/// Once a prefix of the observations conflicts, all of them do, the same
/// way.
proof fn lemma_ledger_of_error(rs: Seq<RequestView>, k: int)
    requires
        0 <= k <= rs.len(),
        ledger_of(rs.take(k)) is Err,
    ensures
        ledger_of(rs) == ledger_of(rs.take(k)),
    decreases rs.len(),
{
    if k == rs.len() {
        assert(rs.take(k) =~= rs);
    } else {
        assert(rs.drop_last().take(k) =~= rs.take(k));
        lemma_ledger_of_error(rs.drop_last(), k);
    }
}

/// Views of requests.
pub open spec fn request_views(v: Seq<SemanticReferenceRequest>) -> Seq<RequestView> {
    v.map_values(|r: SemanticReferenceRequest| r@)
}

/// Deterministically ordered semantic reference request ledger.
#[derive(Debug, Default, Clone, PartialEq, Eq)]
pub struct SemanticReferenceRequestLedger {
    requests: Vec<SemanticReferenceRequest>,
}

impl View for SemanticReferenceRequestLedger {
    type V = Seq<RequestView>;

    closed spec fn view(&self) -> Seq<RequestView> {
        request_views(self.requests@)
    }
}

/// Position of `id` among requests: the first whose identifier does not
/// sort before it.
fn find_request(requests: &[SemanticReferenceRequest], id: &SemanticReferenceRequestId) -> (p: usize)
    ensures
        p == request_pos(request_views(requests@), id@, 0),
        p <= requests@.len(),
{
    let ghost rv = request_views(requests@);
    let mut p: usize = 0;
    let mut found = false;
    while p < requests.len() && !found
        invariant
            p <= requests@.len(),
            rv == request_views(requests@),
            !found ==> request_pos(rv, id@, p as int) == request_pos(rv, id@, 0),
            found ==> p < requests@.len() && request_pos(rv, id@, 0) == p,
        decreases requests@.len() - p, if found { 0int } else { 1int },
    {
        assert(rv[p as int] == requests@[p as int]@);
        if text_less(requests[p].id.as_str(), id.as_str()) {
            p = p + 1;
        } else {
            found = true;
        }
    }
    proof {
        if !found {
            assert(request_pos(rv, id@, p as int) == p);
        }
    }
    p
}

impl SemanticReferenceRequestLedger {
    /// Creates an empty request ledger.
    pub fn new() -> (r: Self)
        ensures
            r@ == Seq::<RequestView>::empty(),
    {
        let r = SemanticReferenceRequestLedger { requests: Vec::new() };
        assert(r@ =~= Seq::<RequestView>::empty());
        r
    }

    /// Aggregates requests in deterministic identity order.
    pub fn from_requests(requests: Vec<SemanticReferenceRequest>) -> (r: Result<Self, SemanticReferenceRequestError>)
        ensures
            match ledger_of(request_views(requests@)) {
                Ok(l) => r is Ok && r->Ok_0@ == l,
                Err(f) => r is Err && request_fault(r->Err_0) == f,
            },
    {
        let ghost all = request_views(requests@);
        let mut ledger = Self::new();
        let mut rest = requests;
        let total = rest.len();
        let mut taken: usize = 0;
        while rest.len() > 0
            invariant
                taken + rest@.len() == total,
                total == all.len(),
                all == request_views(requests@),
                request_views(rest@) == all.skip(taken as int),
                ledger_of(all.take(taken as int)) == Ok::<Seq<RequestView>, RequestFault>(ledger@),
            decreases rest@.len(),
        {
            let ghost before = rest@;
            let request = rest.remove(0);
            assert(request_views(rest@) =~= all.skip(taken + 1)) by {
                assert forall|j: int| 0 <= j < rest@.len() implies request_views(rest@)[j] == all.skip(taken + 1)[j] by {
                    assert(rest@[j] == before[j + 1]);
                    assert(request_views(before)[j + 1] == all.skip(taken as int)[j + 1]);
                }
            }
            assert(request_views(before)[0] == all[taken as int]);
            assert(all.take(taken + 1).drop_last() =~= all.take(taken as int));
            assert(all.take(taken + 1).last() == request@);
            let ghost lv = ledger@;
            let ghost rq = request@;
            if let Err(e) = ledger.insert(request) {
                proof {
                    assert(ledger_insert(lv, rq) == Err::<(Seq<RequestView>, bool), RequestFault>(request_fault(e)));
                    assert(ledger_of(all.take(taken + 1)) == Err::<Seq<RequestView>, RequestFault>(request_fault(e)));
                    lemma_ledger_of_error(all, taken + 1);
                    assert(ledger_of(all) == Err::<Seq<RequestView>, RequestFault>(request_fault(e)));
                }
                return Err(e);
            }
            taken = taken + 1;
        }
        assert(all.take(total as int) =~= all);
        Ok(ledger)
    }

    /// Inserts or provenance-merges one canonical request observation;
    /// returns `true` when its identity was new. On error the ledger is
    /// unchanged.
    pub fn insert(&mut self, request: SemanticReferenceRequest) -> (r: Result<bool, SemanticReferenceRequestError>)
        ensures
            match ledger_insert(old(self)@, request@) {
                Ok(x) => r == Ok::<bool, SemanticReferenceRequestError>(x.1) && final(self)@ == x.0,
                Err(f) => r is Err && request_fault(r->Err_0) == f && final(self)@ == old(self)@,
            },
    {
        let ghost rv = self@;
        let p = find_request(self.requests.as_slice(), &request.id);
        if p < self.requests.len() && text_equal(self.requests[p].id.as_str(), request.id.as_str()) {
            assert(rv[p as int] == self.requests@[p as int]@);
            if !self.requests[p].has_same_identity_content(&request) {
                return Err(SemanticReferenceRequestError::ConflictingIdentity { id: request.id });
            }
            if !self.requests[p].has_same_terminal_content(&request) {
                return Err(SemanticReferenceRequestError::ConflictingTerminalContent { id: request.id });
            }
            let mut combined = crate::graph::provenance::duplicate_provenance(self.requests[p].provenance.as_slice());
            let ghost first = provenance_views(combined@);
            let SemanticReferenceRequest { provenance: mut added, .. } = request;
            let ghost second = provenance_views(added@);
            combined.append(&mut added);
            assert(provenance_views(combined@) =~= first + second);
            let merged = canonical_provenance_list(combined)?;
            let mut existing = self.requests.remove(p);
            existing.provenance = merged;
            self.requests.insert(p, existing);
            assert(self@ =~= rv.update(
                p as int,
                (rv[p as int].0, rv[p as int].1, rv[p as int].2, rv[p as int].3, rv[p as int].4, rv[p as int].5, rv[p as int].6, rv[p as int].7, provenance_views(self.requests@[p as int].provenance@)),
            ));
            Ok(false)
        } else {
            let ghost rq = request@;
            self.requests.insert(p, request);
            assert(self@ =~= rv.insert(p as int, rq));
            Ok(true)
        }
    }

    /// Returns requests in stable request-identity order.
    pub fn requests(&self) -> (r: &[SemanticReferenceRequest])
        ensures
            request_views(r@) == self@,
    {
        self.requests.as_slice()
    }

    /// Returns the number of canonical requests.
    pub fn len(&self) -> (r: usize)
        ensures
            r == self@.len(),
    {
        self.requests.len()
    }

    /// Returns whether the ledger is empty.
    pub fn is_empty(&self) -> (r: bool)
        ensures
            r == (self@.len() == 0),
    {
        self.requests.len() == 0
    }

    /// Creates an immutable request-ledger query view.
    pub fn query(&self) -> (r: SemanticReferenceRequestQuery<'_>)
        ensures
            r@ == self@,
    {
        SemanticReferenceRequestQuery { requests: self.requests.as_slice() }
    }
}

/// Which requests a query filter keeps.
pub enum RequestSelector {
    Category(SemanticReferenceCategory),
    Source(Seq<char>),
    Outcome(SemanticReferenceRequestOutcome),
    State(ResolutionState),
    ExpectedKind(NodeKind),
}

/// Whether a selector keeps a request.
pub open spec fn selects(s: RequestSelector, r: RequestView) -> bool {
    match s {
        RequestSelector::Category(c) => r.2 == c,
        RequestSelector::Source(id) => r.1 == id,
        RequestSelector::Outcome(o) => r.7 == o,
        RequestSelector::State(st) => r.6 == st,
        RequestSelector::ExpectedKind(k) => r.4.contains(k),
    }
}

/// The requests a selector keeps, in order.
pub open spec fn selected(rs: Seq<RequestView>, s: RequestSelector) -> Seq<RequestView>
    decreases rs.len(),
{
    if rs.len() == 0 {
        Seq::empty()
    } else {
        let rest = selected(rs.drop_last(), s);
        if selects(s, rs.last()) {
            rest.push(rs.last())
        } else {
            rest
        }
    }
}

/// Views of request references.
pub open spec fn request_ref_views(v: Seq<&SemanticReferenceRequest>) -> Seq<RequestView> {
    v.map_values(|r: &SemanticReferenceRequest| r@)
}

/// An executable filter of a query.
enum RequestFilter<'a> {
    Category(SemanticReferenceCategory),
    Source(&'a EntityId),
    Outcome(SemanticReferenceRequestOutcome),
    State(ResolutionState),
    ExpectedKind(NodeKind),
}

spec fn selector_of(f: RequestFilter) -> RequestSelector {
    match f {
        RequestFilter::Category(c) => RequestSelector::Category(c),
        RequestFilter::Source(id) => RequestSelector::Source(id@),
        RequestFilter::Outcome(o) => RequestSelector::Outcome(o),
        RequestFilter::State(st) => RequestSelector::State(st),
        RequestFilter::ExpectedKind(k) => RequestSelector::ExpectedKind(k),
    }
}

fn filter_keeps(f: &RequestFilter, r: &SemanticReferenceRequest) -> (b: bool)
    ensures
        b == selects(selector_of(*f), r@),
{
    match f {
        RequestFilter::Category(c) => r.category == *c,
        RequestFilter::Source(id) => text_equal(r.source_node.as_str(), id.as_str()),
        RequestFilter::Outcome(o) => r.outcome == *o,
        RequestFilter::State(st) => r.state == *st,
        RequestFilter::ExpectedKind(k) => kinds_contain(r.expected_kinds.as_slice(), *k),
    }
}

/// Immutable query view over a canonical request ledger.
#[derive(Debug, Clone, Copy)]
pub struct SemanticReferenceRequestQuery<'ledger> {
    requests: &'ledger [SemanticReferenceRequest],
}

impl<'ledger> View for SemanticReferenceRequestQuery<'ledger> {
    type V = Seq<RequestView>;

    closed spec fn view(&self) -> Seq<RequestView> {
        request_views(self.requests@)
    }
}

impl<'ledger> SemanticReferenceRequestQuery<'ledger> {
    /// Returns all requests in stable identity order.
    pub fn all(self) -> (r: &'ledger [SemanticReferenceRequest])
        ensures
            request_views(r@) == self@,
    {
        self.requests
    }

    /// Finds a request by stable identity.
    pub fn request(self, id: &SemanticReferenceRequestId) -> (r: Option<&'ledger SemanticReferenceRequest>)
        ensures
            ({
                let p = request_pos(self@, id@, 0);
                match r {
                    Some(x) => 0 <= p < self@.len() && self@[p].0 == id@ && x@ == self@[p],
                    None => !(0 <= p < self@.len() && self@[p].0 == id@),
                }
            }),
    {
        let p = find_request(self.requests, id);
        if p < self.requests.len() && text_equal(self.requests[p].id.as_str(), id.as_str()) {
            assert(self@[p as int] == self.requests@[p as int]@);
            Some(&self.requests[p])
        } else {
            proof {
                if p < self@.len() {
                    assert(self@[p as int] == self.requests@[p as int]@);
                }
            }
            None
        }
    }

    fn filter(self, f: RequestFilter) -> (r: Vec<&'ledger SemanticReferenceRequest>)
        ensures
            request_ref_views(r@) == selected(self@, selector_of(f)),
    {
        let ghost rv = self@;
        let mut out: Vec<&'ledger SemanticReferenceRequest> = Vec::new();
        let mut i: usize = 0;
        while i < self.requests.len()
            invariant
                i <= self.requests@.len(),
                rv == request_views(self.requests@),
                request_ref_views(out@) == selected(rv.take(i as int), selector_of(f)),
            decreases self.requests@.len() - i,
        {
            let r = &self.requests[i];
            assert(rv.take(i + 1).drop_last() =~= rv.take(i as int));
            assert(rv.take(i + 1).last() == r@);
            let ghost before = out@;
            if filter_keeps(&f, r) {
                out.push(r);
                assert(request_ref_views(out@) =~= request_ref_views(before).push(r@));
            }
            i = i + 1;
        }
        assert(rv.take(i as int) =~= rv);
        out
    }

    /// Returns requests with the supplied semantic category.
    pub fn by_category(self, category: SemanticReferenceCategory) -> (r: Vec<&'ledger SemanticReferenceRequest>)
        ensures
            request_ref_views(r@) == selected(self@, RequestSelector::Category(category)),
    {
        self.filter(RequestFilter::Category(category))
    }

    /// Returns requests originating from the supplied semantic node.
    pub fn by_source(self, source_node: &EntityId) -> (r: Vec<&'ledger SemanticReferenceRequest>)
        ensures
            request_ref_views(r@) == selected(self@, RequestSelector::Source(source_node@)),
    {
        self.filter(RequestFilter::Source(source_node))
    }

    /// Returns requests with the supplied lifecycle outcome.
    pub fn by_outcome(self, outcome: SemanticReferenceRequestOutcome) -> (r: Vec<&'ledger SemanticReferenceRequest>)
        ensures
            request_ref_views(r@) == selected(self@, RequestSelector::Outcome(outcome)),
    {
        self.filter(RequestFilter::Outcome(outcome))
    }

    /// Returns requests in the supplied resolution state.
    pub fn by_state(self, state: ResolutionState) -> (r: Vec<&'ledger SemanticReferenceRequest>)
        ensures
            request_ref_views(r@) == selected(self@, RequestSelector::State(state)),
    {
        self.filter(RequestFilter::State(state))
    }

    /// Returns requests accepting the supplied target kind.
    pub fn by_expected_kind(self, kind: NodeKind) -> (r: Vec<&'ledger SemanticReferenceRequest>)
        ensures
            request_ref_views(r@) == selected(self@, RequestSelector::ExpectedKind(kind)),
    {
        self.filter(RequestFilter::ExpectedKind(kind))
    }
}

proof fn lemma_present_kinds_same(a: Seq<NodeKind>, b: Seq<NodeKind>, n: nat)
    requires
        forall|k: NodeKind| a.contains(k) <==> b.contains(k),
    ensures
        present_kinds(a, n) == present_kinds(b, n),
    decreases n,
{
    if n > 0 {
        lemma_present_kinds_same(a, b, (n - 1) as nat);
    }
}

/// Request identity depends on the set of expected kinds alone: two lists
/// with the same kinds, in any order and with any repetition, give the same
/// canonical kinds and so the same identifier.
pub proof fn law_identity_ignores_kind_order_and_repeats(
    source: Seq<char>,
    category: SemanticReferenceCategory,
    reference: ReferenceView,
    a: Seq<NodeKind>,
    b: Seq<NodeKind>,
)
    requires
        forall|k: NodeKind| a.contains(k) <==> b.contains(k),
    ensures
        canonical_kinds(a) == canonical_kinds(b),
        make_identity(source, category, reference, a) == make_identity(source, category, reference, b),
{
    lemma_present_kinds_same(a, b, 43);
}

/// Position of a node kind in kind order.
pub open spec fn node_kind_index(k: NodeKind) -> int {
    choose|i: int| 0 <= i < 43 && node_kind_at(i) == k
}

proof fn lemma_node_kind_listed(k: NodeKind)
    ensures
        exists|i: int| 0 <= i < 43 && node_kind_at(i) == k,
{
    let i: int = match k {
        NodeKind::Metadata(m) => match m {
            crate::graph::kind::MetadataKind::Configuration => 0,
            crate::graph::kind::MetadataKind::Subsystem => 1,
            crate::graph::kind::MetadataKind::Catalog => 2,
            crate::graph::kind::MetadataKind::Document => 3,
            crate::graph::kind::MetadataKind::Enumeration => 4,
            crate::graph::kind::MetadataKind::CommonModule => 5,
            crate::graph::kind::MetadataKind::Report => 6,
            crate::graph::kind::MetadataKind::DataProcessor => 7,
            crate::graph::kind::MetadataKind::InformationRegister => 8,
            crate::graph::kind::MetadataKind::AccumulationRegister => 9,
            crate::graph::kind::MetadataKind::AccountingRegister => 10,
            crate::graph::kind::MetadataKind::CalculationRegister => 11,
            crate::graph::kind::MetadataKind::BusinessProcess => 12,
            crate::graph::kind::MetadataKind::Task => 13,
            crate::graph::kind::MetadataKind::Role => 14,
            crate::graph::kind::MetadataKind::CommonForm => 15,
            crate::graph::kind::MetadataKind::Form => 16,
            crate::graph::kind::MetadataKind::Command => 17,
            crate::graph::kind::MetadataKind::Template => 18,
            crate::graph::kind::MetadataKind::HttpService => 19,
            crate::graph::kind::MetadataKind::WebService => 20,
            crate::graph::kind::MetadataKind::XdtoPackage => 21,
            crate::graph::kind::MetadataKind::EventSubscription => 22,
            crate::graph::kind::MetadataKind::Unknown => 23,
        },
        NodeKind::Module => 24,
        NodeKind::Procedure => 25,
        NodeKind::Function => 26,
        NodeKind::Query => 27,
        NodeKind::DataCompositionSchema => 28,
        NodeKind::DataSet => 29,
        NodeKind::DataCompositionField => 30,
        NodeKind::Form => 31,
        NodeKind::Command => 32,
        NodeKind::Attribute => 33,
        NodeKind::StandardAttribute => 34,
        NodeKind::TabularSection => 35,
        NodeKind::Dimension => 36,
        NodeKind::Resource => 37,
        NodeKind::Measure => 38,
        NodeKind::Role => 39,
        NodeKind::AccessRight => 40,
        NodeKind::Subsystem => 41,
        NodeKind::Unknown => 42,
    };
    assert(node_kind_at(i) == k);
}

proof fn lemma_present_kinds_members(ks: Seq<NodeKind>, n: nat, k: NodeKind)
    ensures
        present_kinds(ks, n).contains(k) <==> ks.contains(k) && exists|i: int| 0 <= i < n && node_kind_at(i) == k,
    decreases n,
{
    if n > 0 {
        let m = (n - 1) as nat;
        lemma_present_kinds_members(ks, m, k);
        let rest = present_kinds(ks, m);
        let x = node_kind_at(n - 1);
        if present_kinds(ks, n).contains(k) {
            if ks.contains(x) {
                let j = choose|j: int| 0 <= j < rest.push(x).len() && rest.push(x)[j] == k;
                if j < rest.len() {
                    assert(rest[j] == k);
                    assert(rest.contains(k));
                } else {
                    assert(node_kind_at(n - 1) == k);
                }
            }
        }
        if ks.contains(k) && exists|i: int| 0 <= i < n && node_kind_at(i) == k {
            let i = choose|i: int| 0 <= i < n && node_kind_at(i) == k;
            if i == n - 1 {
                assert(present_kinds(ks, n) == rest.push(x));
                assert(rest.push(x)[rest.len() as int] == k);
            } else {
                assert(rest.contains(k));
                let j = choose|j: int| 0 <= j < rest.len() && rest[j] == k;
                if ks.contains(x) {
                    assert(rest.push(x)[j] == k);
                }
            }
        }
    }
}

/// The canonical expected kinds hold every requested kind and nothing
/// else.
pub proof fn law_canonical_kinds_keep_every_kind(ks: Seq<NodeKind>, k: NodeKind)
    ensures
        canonical_kinds(ks).contains(k) <==> ks.contains(k),
{
    lemma_node_kind_listed(k);
    lemma_present_kinds_members(ks, 43, k);
}

/// Lifecycle transitions never change identity: a terminal request keeps
/// the identifier and identity content of the collected request it came
/// from.
pub proof fn law_transition_keeps_identity(
    r: RequestView,
    outcome: SemanticReferenceRequestOutcome,
    candidates: Seq<Seq<char>>,
    state: ResolutionState,
    provenance: Seq<ProvenanceView>,
)
    requires
        r.0 == identity_text(r.1, r.2, r.3, r.4),
    ensures
        transition_request(r, outcome, candidates, state, provenance) matches Ok(v) ==> v.0 == r.0 && v.1 == r.1
            && v.2 == r.2 && v.3 == r.3 && v.4 == r.4 && v.7 == outcome,
{
}

/// Request identifiers strictly increase along the ledger.
pub open spec fn ledger_ordered(rs: Seq<RequestView>) -> bool {
    forall|i: int, j: int| 0 <= i < j < rs.len() ==> lex_lt(#[trigger] rs[i].0, #[trigger] rs[j].0)
}

proof fn lemma_request_pos(rs: Seq<RequestView>, id: Seq<char>, i: int)
    requires
        0 <= i <= rs.len(),
    ensures
        i <= request_pos(rs, id, i) <= rs.len(),
        forall|j: int| i <= j < request_pos(rs, id, i) ==> lex_lt(#[trigger] rs[j].0, id),
        request_pos(rs, id, i) < rs.len() ==> !lex_lt(rs[request_pos(rs, id, i)].0, id),
    decreases rs.len() - i,
{
    if i < rs.len() && lex_lt(rs[i].0, id) {
        lemma_request_pos(rs, id, i + 1);
    }
}

/// The ledger keeps one request per identifier, in identifier order:
/// accepting an observation keeps the order.
pub proof fn law_ledger_insert_keeps_order(rs: Seq<RequestView>, r: RequestView)
    requires
        ledger_ordered(rs),
    ensures
        ledger_insert(rs, r) matches Ok(x) ==> ledger_ordered(x.0),
{
    lemma_request_pos(rs, r.0, 0);
    let p = request_pos(rs, r.0, 0);
    if let Ok(x) = ledger_insert(rs, r) {
        let t = x.0;
        if 0 <= p < rs.len() && rs[p].0 == r.0 {
            assert forall|i: int, j: int| 0 <= i < j < t.len() implies lex_lt(#[trigger] t[i].0, #[trigger] t[j].0) by {
                assert(t[i].0 == rs[i].0 && t[j].0 == rs[j].0);
            }
        } else {
            assert(t == rs.insert(p, r));
            if p < rs.len() {
                crate::text::lemma_lex_order(rs[p].0, r.0, r.0);
                crate::text::lemma_lex_order(r.0, rs[p].0, rs[p].0);
            }
            assert forall|i: int, j: int| 0 <= i < j < t.len() implies lex_lt(#[trigger] t[i].0, #[trigger] t[j].0) by {
                if j < p {
                    assert(t[i] == rs[i] && t[j] == rs[j]);
                } else if j == p {
                    assert(t[i] == rs[i]);
                } else if i < p {
                    assert(t[i] == rs[i] && t[j] == rs[j - 1]);
                    assert(lex_lt(rs[i].0, r.0));
                    crate::text::lemma_lex_order(rs[i].0, r.0, rs[j - 1].0);
                    if j - 1 > p {
                        assert(lex_lt(rs[p].0, rs[j - 1].0));
                        crate::text::lemma_lex_order(r.0, rs[p].0, rs[j - 1].0);
                    }
                    crate::text::lemma_lex_order(rs[i].0, rs[p].0, rs[j - 1].0);
                } else if i == p {
                    assert(t[j] == rs[j - 1]);
                    if j - 1 > p {
                        assert(lex_lt(rs[p].0, rs[j - 1].0));
                        crate::text::lemma_lex_order(r.0, rs[p].0, rs[j - 1].0);
                    }
                } else {
                    assert(t[i] == rs[i - 1] && t[j] == rs[j - 1]);
                }
            }
        }
    }
}

/// Every ledger built from observations keeps one request per identifier,
/// in identifier order.
pub proof fn law_ledger_is_ordered(rs: Seq<RequestView>)
    ensures
        ledger_of(rs) matches Ok(l) ==> ledger_ordered(l),
    decreases rs.len(),
{
    if rs.len() > 0 {
        law_ledger_is_ordered(rs.drop_last());
        if let Ok(l) = ledger_of(rs.drop_last()) {
            law_ledger_insert_keeps_order(l, rs.last());
        }
    }
}

/// Inserting into an ordered ledger: a request whose identifier the ledger
/// lacks is added and the ledger grows by one; a request whose identifier it
/// holds either conflicts or is merged into that entry, with its provenance
/// the ordered union of both, and no other entry changes.
pub proof fn law_ledger_insert_outcome(rs: Seq<RequestView>, r: RequestView)
    requires
        ledger_ordered(rs),
    ensures
        (forall|i: int| 0 <= i < rs.len() ==> #[trigger] rs[i].0 != r.0) ==> (ledger_insert(rs, r) matches Ok(
            x,
        ) && x.1 && x.0.len() == rs.len() + 1 && x.0.contains(r)),
        (exists|i: int| 0 <= i < rs.len() && #[trigger] rs[i].0 == r.0) ==> (ledger_insert(rs, r) matches Ok(x)
            ==> {
            &&& !x.1
            &&& x.0.len() == rs.len()
            &&& forall|j: int| 0 <= j < rs.len() && rs[j].0 != r.0 ==> #[trigger] x.0[j] == rs[j]
            &&& exists|j: int|
                0 <= j < rs.len() && #[trigger] rs[j].0 == r.0 && canonical_provenance(rs[j].8 + r.8) == Ok::<
                    Seq<ProvenanceView>,
                    RequestFault,
                >(x.0[j].8)
        }),
{
    lemma_request_pos(rs, r.0, 0);
    let p = request_pos(rs, r.0, 0);
    if exists|i: int| 0 <= i < rs.len() && #[trigger] rs[i].0 == r.0 {
        let i = choose|i: int| 0 <= i < rs.len() && #[trigger] rs[i].0 == r.0;
        crate::text::lemma_lex_order(r.0, r.0, r.0);
        if i < p {
            assert(lex_lt(rs[i].0, r.0));
        } else if i > p {
            assert(lex_lt(rs[p].0, rs[i].0));
            crate::text::lemma_lex_order(rs[p].0, r.0, r.0);
        }
        assert(p == i);
    } else {
        if p < rs.len() {
            assert(rs[p].0 != r.0);
        }
        assert(ledger_insert(rs, r) == Ok::<(Seq<RequestView>, bool), RequestFault>((rs.insert(p, r), true)));
        assert(rs.insert(p, r)[p] == r);
    }
}

} // verus!
