//! Codes, severities and kinds of the semantic diagnostics produced while
//! building or resolving graph facts.

use vstd::prelude::*;

use crate::entity::EntityId;
use crate::graph::kind::NodeKind;
use crate::graph::provenance::{provenance_views, Provenance, ProvenanceView};
use crate::graph::reference_request::{
    canonical_candidate_list, canonical_candidates, canonical_kind_list, canonical_kinds, id_views,
};
use crate::graph::resolution::{ReferenceView, ResolutionError, SemanticReference};
use crate::text::push_str;

verus! {

/// Stable machine-readable semantic diagnostic code.
#[derive(Debug, Clone, Copy, PartialEq, Eq, PartialOrd, Ord, Hash, Structural)]
pub enum SemanticDiagnosticCode {
    /// A raw semantic reference does not have the required source format.
    ReferenceMalformedFormat,
    /// A raw semantic reference uses a source prefix unsupported by the producer.
    ReferenceUnsupportedPrefix,
    /// A semantic reference has no resolved target.
    ReferenceUnresolved,
    /// A semantic reference has multiple possible targets.
    ReferenceAmbiguous,
    /// A semantic reference resolved to a node with an incompatible kind.
    ReferenceIncompatibleKind,
    /// A semantic reference points to a child that is not owned by the supplied owner.
    ReferenceInvalidOwner,
    /// A semantic edge was requested more than once where that is considered diagnostic.
    DuplicateSemanticEdgeRequest,
}

/// Stable string representation of a diagnostic code.
pub open spec fn diagnostic_code_text(code: SemanticDiagnosticCode) -> Seq<char> {
    match code {
        SemanticDiagnosticCode::ReferenceMalformedFormat => "semantic.reference.malformed_format"@,
        SemanticDiagnosticCode::ReferenceUnsupportedPrefix => "semantic.reference.unsupported_prefix"@,
        SemanticDiagnosticCode::ReferenceUnresolved => "semantic.reference.unresolved"@,
        SemanticDiagnosticCode::ReferenceAmbiguous => "semantic.reference.ambiguous"@,
        SemanticDiagnosticCode::ReferenceIncompatibleKind => "semantic.reference.incompatible_kind"@,
        SemanticDiagnosticCode::ReferenceInvalidOwner => "semantic.reference.invalid_owner"@,
        SemanticDiagnosticCode::DuplicateSemanticEdgeRequest => "semantic.edge.duplicate_request"@,
    }
}

impl SemanticDiagnosticCode {
    /// Returns the stable string representation of the diagnostic code.
    pub fn as_str(self) -> (r: &'static str)
        ensures
            r@ == diagnostic_code_text(self),
    {
        match self {
            SemanticDiagnosticCode::ReferenceMalformedFormat => "semantic.reference.malformed_format",
            SemanticDiagnosticCode::ReferenceUnsupportedPrefix => "semantic.reference.unsupported_prefix",
            SemanticDiagnosticCode::ReferenceUnresolved => "semantic.reference.unresolved",
            SemanticDiagnosticCode::ReferenceAmbiguous => "semantic.reference.ambiguous",
            SemanticDiagnosticCode::ReferenceIncompatibleKind => "semantic.reference.incompatible_kind",
            SemanticDiagnosticCode::ReferenceInvalidOwner => "semantic.reference.invalid_owner",
            SemanticDiagnosticCode::DuplicateSemanticEdgeRequest => "semantic.edge.duplicate_request",
        }
    }
}

/// Severity assigned to a semantic diagnostic. `Error` marks a problem in input
/// facts that a tolerant pipeline may still recover from.
#[derive(Debug, Clone, Copy, PartialEq, Eq, PartialOrd, Ord, Hash, Structural)]
pub enum SemanticDiagnosticSeverity {
    /// Non-fatal diagnostic that should be visible to users.
    Warning,
    /// Semantic error that may still be recoverable by a tolerant pipeline.
    Error,
}

/// Typed semantic diagnostic category.
#[derive(Debug, Clone, Copy, PartialEq, Eq, PartialOrd, Ord, Hash, Structural)]
pub enum SemanticDiagnosticKind {
    /// A raw semantic reference does not have the required source format.
    MalformedReferenceFormat,
    /// A raw semantic reference uses a source prefix unsupported by the producer.
    UnsupportedReferencePrefix,
    /// A semantic reference has no resolved target.
    UnresolvedTarget,
    /// A semantic reference has multiple possible targets.
    AmbiguousTarget,
    /// A semantic reference resolved to a node with an incompatible kind.
    IncompatibleTargetKind,
    /// A semantic owner-child relation is invalid.
    InvalidOwnerReference,
    /// A semantic edge request is duplicated where duplication is diagnostic.
    DuplicateSemanticEdgeRequest,
}


/// Diagnostic codes in declaration order.
pub open spec fn diagnostic_code_at(i: int) -> SemanticDiagnosticCode {
    if i == 0 {
        SemanticDiagnosticCode::ReferenceMalformedFormat
    } else if i == 1 {
        SemanticDiagnosticCode::ReferenceUnsupportedPrefix
    } else if i == 2 {
        SemanticDiagnosticCode::ReferenceUnresolved
    } else if i == 3 {
        SemanticDiagnosticCode::ReferenceAmbiguous
    } else if i == 4 {
        SemanticDiagnosticCode::ReferenceIncompatibleKind
    } else if i == 5 {
        SemanticDiagnosticCode::ReferenceInvalidOwner
    } else {
        SemanticDiagnosticCode::DuplicateSemanticEdgeRequest
    }
}

/// The diagnostic code at position `i` of declaration order.
pub(crate) fn diagnostic_code_at_position(i: usize) -> (r: SemanticDiagnosticCode)
    requires
        i < 7,
    ensures
        r == diagnostic_code_at(i as int),
{
    if i == 0 {
        SemanticDiagnosticCode::ReferenceMalformedFormat
    } else if i == 1 {
        SemanticDiagnosticCode::ReferenceUnsupportedPrefix
    } else if i == 2 {
        SemanticDiagnosticCode::ReferenceUnresolved
    } else if i == 3 {
        SemanticDiagnosticCode::ReferenceAmbiguous
    } else if i == 4 {
        SemanticDiagnosticCode::ReferenceIncompatibleKind
    } else if i == 5 {
        SemanticDiagnosticCode::ReferenceInvalidOwner
    } else {
        SemanticDiagnosticCode::DuplicateSemanticEdgeRequest
    }
}


/// Diagnostic severities in declaration order.
pub open spec fn diagnostic_severity_at(i: int) -> SemanticDiagnosticSeverity {
    if i == 0 {
        SemanticDiagnosticSeverity::Warning
    } else {
        SemanticDiagnosticSeverity::Error
    }
}

/// The diagnostic severity at position `i` of declaration order.
pub(crate) fn diagnostic_severity_at_position(i: usize) -> (r: SemanticDiagnosticSeverity)
    requires
        i < 2,
    ensures
        r == diagnostic_severity_at(i as int),
{
    if i == 0 {
        SemanticDiagnosticSeverity::Warning
    } else {
        SemanticDiagnosticSeverity::Error
    }
}


/// Diagnostic kinds in declaration order.
pub open spec fn diagnostic_kind_at(i: int) -> SemanticDiagnosticKind {
    if i == 0 {
        SemanticDiagnosticKind::MalformedReferenceFormat
    } else if i == 1 {
        SemanticDiagnosticKind::UnsupportedReferencePrefix
    } else if i == 2 {
        SemanticDiagnosticKind::UnresolvedTarget
    } else if i == 3 {
        SemanticDiagnosticKind::AmbiguousTarget
    } else if i == 4 {
        SemanticDiagnosticKind::IncompatibleTargetKind
    } else if i == 5 {
        SemanticDiagnosticKind::InvalidOwnerReference
    } else {
        SemanticDiagnosticKind::DuplicateSemanticEdgeRequest
    }
}

/// The diagnostic kind at position `i` of declaration order.
pub(crate) fn diagnostic_kind_at_position(i: usize) -> (r: SemanticDiagnosticKind)
    requires
        i < 7,
    ensures
        r == diagnostic_kind_at(i as int),
{
    if i == 0 {
        SemanticDiagnosticKind::MalformedReferenceFormat
    } else if i == 1 {
        SemanticDiagnosticKind::UnsupportedReferencePrefix
    } else if i == 2 {
        SemanticDiagnosticKind::UnresolvedTarget
    } else if i == 3 {
        SemanticDiagnosticKind::AmbiguousTarget
    } else if i == 4 {
        SemanticDiagnosticKind::IncompatibleTargetKind
    } else if i == 5 {
        SemanticDiagnosticKind::InvalidOwnerReference
    } else {
        SemanticDiagnosticKind::DuplicateSemanticEdgeRequest
    }
}


/// Structured semantic diagnostic. Diagnostics sort by provenance, source
/// node, code, kind, reference, expected kinds, actual kind, candidates and
/// message.
#[derive(Debug, Clone, PartialEq, Eq, PartialOrd, Ord)]
pub struct SemanticDiagnostic {
    provenance: Vec<Provenance>,
    source_node: Option<EntityId>,
    code: SemanticDiagnosticCode,
    kind: SemanticDiagnosticKind,
    reference: SemanticReference,
    expected_kinds: Vec<NodeKind>,
    actual_kind: Option<NodeKind>,
    candidates: Vec<EntityId>,
    message: String,
    severity: SemanticDiagnosticSeverity,
}

/// Diagnostic view: code, severity, kind, message, reference, source node,
/// expected kinds, actual kind, candidates, provenance.
pub type DiagnosticView = (
    SemanticDiagnosticCode,
    SemanticDiagnosticSeverity,
    SemanticDiagnosticKind,
    Seq<char>,
    ReferenceView,
    Option<Seq<char>>,
    Seq<NodeKind>,
    Option<NodeKind>,
    Seq<Seq<char>>,
    Seq<ProvenanceView>,
);

impl View for SemanticDiagnostic {
    type V = DiagnosticView;

    closed spec fn view(&self) -> DiagnosticView {
        (
            self.code,
            self.severity,
            self.kind,
            self.message@,
            self.reference@,
            match self.source_node {
                Some(s) => Some(s@),
                None => None,
            },
            self.expected_kinds@,
            self.actual_kind,
            id_views(self.candidates@),
            provenance_views(self.provenance@),
        )
    }
}

/// The diagnostic a resolution error produces: its code, kind and message,
/// the reference context when given (else the error's own reference), and
/// the candidates, expected kinds and actual kind the error carries.
pub open spec fn resolution_diagnostic(e: ResolutionError, context: Option<ReferenceView>) -> DiagnosticView {
    match e {
        ResolutionError::MissingTarget { reference } => (
            SemanticDiagnosticCode::ReferenceUnresolved,
            SemanticDiagnosticSeverity::Error,
            SemanticDiagnosticKind::UnresolvedTarget,
            "semantic reference target could not be resolved"@,
            match context {
                Some(c) => c,
                None => reference@,
            },
            None,
            Seq::empty(),
            None,
            Seq::empty(),
            Seq::empty(),
        ),
        ResolutionError::AmbiguousTarget { reference, candidates } => (
            SemanticDiagnosticCode::ReferenceAmbiguous,
            SemanticDiagnosticSeverity::Error,
            SemanticDiagnosticKind::AmbiguousTarget,
            "semantic reference target is ambiguous"@,
            match context {
                Some(c) => c,
                None => reference@,
            },
            None,
            Seq::empty(),
            None,
            canonical_candidates(id_views(candidates@)),
            Seq::empty(),
        ),
        ResolutionError::IncompatibleNodeKind { id, expected, actual } => (
            SemanticDiagnosticCode::ReferenceIncompatibleKind,
            SemanticDiagnosticSeverity::Error,
            SemanticDiagnosticKind::IncompatibleTargetKind,
            "semantic reference target has incompatible kind"@,
            match context {
                Some(c) => c,
                None => (1nat, id@, Seq::<char>::empty()),
            },
            None,
            canonical_kinds(expected@),
            Some(actual),
            Seq::empty(),
            Seq::empty(),
        ),
        ResolutionError::InvalidOwnerReference { owner, child } => (
            SemanticDiagnosticCode::ReferenceInvalidOwner,
            SemanticDiagnosticSeverity::Error,
            SemanticDiagnosticKind::InvalidOwnerReference,
            "semantic reference owner relation is invalid"@,
            match context {
                Some(c) => c,
                None => (5nat, owner@, child@),
            },
            None,
            Seq::empty(),
            None,
            Seq::empty(),
            Seq::empty(),
        ),
    }
}

impl SemanticDiagnostic {
    /// Creates a structured semantic diagnostic.
    pub fn new(
        code: SemanticDiagnosticCode,
        severity: SemanticDiagnosticSeverity,
        kind: SemanticDiagnosticKind,
        message: &str,
        reference: SemanticReference,
    ) -> (r: Self)
        ensures
            r@ == (
                code,
                severity,
                kind,
                message@,
                reference@,
                None::<Seq<char>>,
                Seq::<NodeKind>::empty(),
                None::<NodeKind>,
                Seq::<Seq<char>>::empty(),
                Seq::<ProvenanceView>::empty(),
            ),
    {
        let mut text = String::new();
        push_str(&mut text, message);
        let r = SemanticDiagnostic {
            provenance: Vec::new(),
            source_node: None,
            code,
            kind,
            reference,
            expected_kinds: Vec::new(),
            actual_kind: None,
            candidates: Vec::new(),
            message: text,
            severity,
        };
        assert(id_views(r.candidates@) =~= Seq::<Seq<char>>::empty());
        assert(provenance_views(r.provenance@) =~= Seq::<ProvenanceView>::empty());
        r
    }

    /// Creates a diagnostic from a semantic resolution error.
    pub fn from_resolution_error(error: ResolutionError) -> (r: Self)
        ensures
            r@ == resolution_diagnostic(error, None),
    {
        Self::from_resolution_error_with_reference(error, None)
    }

    /// Creates a diagnostic from a semantic resolution error and an optional
    /// reference context, which replaces the error's own reference.
    pub fn from_resolution_error_with_reference(error: ResolutionError, reference_context: Option<SemanticReference>) -> (r:
        Self)
        ensures
            r@ == resolution_diagnostic(
                error,
                match reference_context {
                    Some(c) => Some(c@),
                    None => None,
                },
            ),
    {
        match error {
            ResolutionError::MissingTarget { reference } => Self::new(
                SemanticDiagnosticCode::ReferenceUnresolved,
                SemanticDiagnosticSeverity::Error,
                SemanticDiagnosticKind::UnresolvedTarget,
                "semantic reference target could not be resolved",
                match reference_context {
                    Some(c) => c,
                    None => reference,
                },
            ),
            ResolutionError::AmbiguousTarget { reference, candidates } => Self::new(
                SemanticDiagnosticCode::ReferenceAmbiguous,
                SemanticDiagnosticSeverity::Error,
                SemanticDiagnosticKind::AmbiguousTarget,
                "semantic reference target is ambiguous",
                match reference_context {
                    Some(c) => c,
                    None => reference,
                },
            ).with_candidates(candidates),
            ResolutionError::IncompatibleNodeKind { id, expected, actual } => Self::new(
                SemanticDiagnosticCode::ReferenceIncompatibleKind,
                SemanticDiagnosticSeverity::Error,
                SemanticDiagnosticKind::IncompatibleTargetKind,
                "semantic reference target has incompatible kind",
                match reference_context {
                    Some(c) => c,
                    None => SemanticReference::NodeId(id.as_str().to_owned()),
                },
            ).with_expected_kinds(expected).with_actual_kind(actual),
            ResolutionError::InvalidOwnerReference { owner, child } => Self::new(
                SemanticDiagnosticCode::ReferenceInvalidOwner,
                SemanticDiagnosticSeverity::Error,
                SemanticDiagnosticKind::InvalidOwnerReference,
                "semantic reference owner relation is invalid",
                match reference_context {
                    Some(c) => c,
                    None => SemanticReference::OwnedChild { owner, child },
                },
            ),
        }
    }

    /// Returns an identical copy of the diagnostic.
    pub fn duplicate(&self) -> (r: Self)
        ensures
            r@ == self@,
    {
        let mut kinds: Vec<NodeKind> = Vec::new();
        let mut i: usize = 0;
        while i < self.expected_kinds.len()
            invariant
                i <= self.expected_kinds@.len(),
                kinds@ == self.expected_kinds@.take(i as int),
            decreases self.expected_kinds@.len() - i,
        {
            kinds.push(self.expected_kinds[i]);
            assert(kinds@ =~= self.expected_kinds@.take(i + 1));
            i = i + 1;
        }
        assert(self.expected_kinds@.take(i as int) =~= self.expected_kinds@);
        let mut ids: Vec<EntityId> = Vec::new();
        let mut j: usize = 0;
        while j < self.candidates.len()
            invariant
                j <= self.candidates@.len(),
                id_views(ids@) == id_views(self.candidates@).take(j as int),
            decreases self.candidates@.len() - j,
        {
            let ghost before = ids@;
            ids.push(self.candidates[j].duplicate());
            assert(id_views(ids@) =~= id_views(before).push(self.candidates@[j as int]@));
            assert(id_views(ids@) =~= id_views(self.candidates@).take(j + 1));
            j = j + 1;
        }
        assert(id_views(self.candidates@).take(j as int) =~= id_views(self.candidates@));
        SemanticDiagnostic {
            provenance: crate::graph::provenance::duplicate_provenance(self.provenance.as_slice()),
            source_node: match &self.source_node {
                Some(s) => Some(s.duplicate()),
                None => None,
            },
            code: self.code,
            kind: self.kind,
            reference: self.reference.duplicate(),
            expected_kinds: kinds,
            actual_kind: self.actual_kind,
            candidates: ids,
            message: self.message.clone(),
            severity: self.severity,
        }
    }

    /// Returns the stable diagnostic code.
    pub fn code(&self) -> (r: SemanticDiagnosticCode)
        ensures
            r == self@.0,
    {
        self.code
    }

    /// Returns the diagnostic severity.
    pub fn severity(&self) -> (r: SemanticDiagnosticSeverity)
        ensures
            r == self@.1,
    {
        self.severity
    }

    /// Returns the typed diagnostic kind.
    pub fn kind(&self) -> (r: SemanticDiagnosticKind)
        ensures
            r == self@.2,
    {
        self.kind
    }

    /// Returns a short human-readable diagnostic message.
    pub fn message(&self) -> (r: &str)
        ensures
            r@ == self@.3,
    {
        self.message.as_str()
    }

    /// Returns the semantic reference that produced this diagnostic.
    pub fn reference(&self) -> (r: &SemanticReference)
        ensures
            r@ == self@.4,
    {
        &self.reference
    }

    /// Returns the source node related to this diagnostic, when known.
    pub fn source_node(&self) -> (r: Option<&EntityId>)
        ensures
            match r {
                Some(s) => self@.5 == Some(s@),
                None => self@.5 is None,
            },
    {
        match &self.source_node {
            Some(s) => Some(s),
            None => None,
        }
    }

    /// Returns the expected target node kinds.
    pub fn expected_kinds(&self) -> (r: &[NodeKind])
        ensures
            r@ == self@.6,
    {
        self.expected_kinds.as_slice()
    }

    /// Returns the actual target node kind, when known.
    pub fn actual_kind(&self) -> (r: Option<NodeKind>)
        ensures
            r == self@.7,
    {
        self.actual_kind
    }

    /// Returns deterministic candidate target identifiers.
    pub fn candidates(&self) -> (r: &[EntityId])
        ensures
            id_views(r@) == self@.8,
    {
        self.candidates.as_slice()
    }

    /// Returns provenance attached to the problematic reference.
    pub fn provenance(&self) -> (r: &[Provenance])
        ensures
            provenance_views(r@) == self@.9,
    {
        self.provenance.as_slice()
    }

    /// Attaches the source node and returns the diagnostic.
    pub fn with_source_node(self, source_node: EntityId) -> (r: Self)
        ensures
            r@ == (self@.0, self@.1, self@.2, self@.3, self@.4, Some(source_node@), self@.6, self@.7, self@.8, self@.9),
    {
        let mut d = self;
        d.source_node = Some(source_node);
        d
    }

    /// Attaches expected target kinds, ordered without repeats.
    pub fn with_expected_kinds(self, expected_kinds: Vec<NodeKind>) -> (r: Self)
        ensures
            r@ == (
                self@.0,
                self@.1,
                self@.2,
                self@.3,
                self@.4,
                self@.5,
                canonical_kinds(expected_kinds@),
                self@.7,
                self@.8,
                self@.9,
            ),
    {
        let mut d = self;
        d.expected_kinds = canonical_kind_list(expected_kinds);
        d
    }

    /// Attaches the actual target kind and returns the diagnostic.
    pub fn with_actual_kind(self, actual_kind: NodeKind) -> (r: Self)
        ensures
            r@ == (self@.0, self@.1, self@.2, self@.3, self@.4, self@.5, self@.6, Some(actual_kind), self@.8, self@.9),
    {
        let mut d = self;
        d.actual_kind = Some(actual_kind);
        d
    }

    /// Attaches candidate target identifiers, ordered without repeats.
    pub fn with_candidates(self, candidates: Vec<EntityId>) -> (r: Self)
        ensures
            r@ == (
                self@.0,
                self@.1,
                self@.2,
                self@.3,
                self@.4,
                self@.5,
                self@.6,
                self@.7,
                canonical_candidates(id_views(candidates@)),
                self@.9,
            ),
    {
        let mut d = self;
        d.candidates = canonical_candidate_list(candidates);
        d
    }

    /// Attaches source provenance and returns the diagnostic.
    pub fn with_provenance(self, provenance: Vec<Provenance>) -> (r: Self)
        ensures
            r@ == (
                self@.0,
                self@.1,
                self@.2,
                self@.3,
                self@.4,
                self@.5,
                self@.6,
                self@.7,
                self@.8,
                provenance_views(provenance@),
            ),
    {
        let mut d = self;
        d.provenance = provenance;
        d
    }
}

} // verus!
