//! Codes of the graph validation rules.

use vstd::prelude::*;

verus! {

/// Stable code of a graph validation rule.
#[derive(Debug, Clone, Copy, PartialEq, Eq, PartialOrd, Ord, Hash, Structural)]
pub enum SemanticGraphValidationCode {
    /// An edge source node is missing.
    MissingSource,
    /// An edge target node is missing.
    MissingTarget,
    /// Edge endpoints have kinds the edge does not admit.
    InvalidEdgeEndpoints,
    /// A child has an owner of a kind that cannot own it.
    InvalidOwner,
    /// A child has more than one owner.
    MultipleOwners,
    /// An edge joins a node to itself where that is forbidden.
    ForbiddenSelfLoop,
    /// Edges form a forbidden cycle.
    Cycle,
    /// A node has no provenance.
    MissingNodeProvenance,
    /// An edge has no provenance.
    MissingEdgeProvenance,
    /// Resolution statistics disagree with the references.
    InconsistentResolutionStatistics,
    /// Diagnostic statistics disagree with the diagnostics.
    InconsistentDiagnosticStatistics,
    /// A report disagrees with the graph it describes.
    InconsistentReport,
}

/// Stable machine-readable name of a validation code.
pub open spec fn validation_code_text(code: SemanticGraphValidationCode) -> Seq<char> {
    match code {
        SemanticGraphValidationCode::MissingSource => "missing_source"@,
        SemanticGraphValidationCode::MissingTarget => "missing_target"@,
        SemanticGraphValidationCode::InvalidEdgeEndpoints => "invalid_edge_endpoints"@,
        SemanticGraphValidationCode::InvalidOwner => "invalid_owner"@,
        SemanticGraphValidationCode::MultipleOwners => "multiple_owners"@,
        SemanticGraphValidationCode::ForbiddenSelfLoop => "forbidden_self_loop"@,
        SemanticGraphValidationCode::Cycle => "cycle"@,
        SemanticGraphValidationCode::MissingNodeProvenance => "missing_node_provenance"@,
        SemanticGraphValidationCode::MissingEdgeProvenance => "missing_edge_provenance"@,
        SemanticGraphValidationCode::InconsistentResolutionStatistics => "inconsistent_resolution_statistics"@,
        SemanticGraphValidationCode::InconsistentDiagnosticStatistics => "inconsistent_diagnostic_statistics"@,
        SemanticGraphValidationCode::InconsistentReport => "inconsistent_report"@,
    }
}

impl SemanticGraphValidationCode {
    /// Returns the stable machine-readable name of the validation code.
    pub fn as_str(self) -> (r: &'static str)
        ensures
            r@ == validation_code_text(self),
    {
        match self {
            SemanticGraphValidationCode::MissingSource => "missing_source",
            SemanticGraphValidationCode::MissingTarget => "missing_target",
            SemanticGraphValidationCode::InvalidEdgeEndpoints => "invalid_edge_endpoints",
            SemanticGraphValidationCode::InvalidOwner => "invalid_owner",
            SemanticGraphValidationCode::MultipleOwners => "multiple_owners",
            SemanticGraphValidationCode::ForbiddenSelfLoop => "forbidden_self_loop",
            SemanticGraphValidationCode::Cycle => "cycle",
            SemanticGraphValidationCode::MissingNodeProvenance => "missing_node_provenance",
            SemanticGraphValidationCode::MissingEdgeProvenance => "missing_edge_provenance",
            SemanticGraphValidationCode::InconsistentResolutionStatistics => "inconsistent_resolution_statistics",
            SemanticGraphValidationCode::InconsistentDiagnosticStatistics => "inconsistent_diagnostic_statistics",
            SemanticGraphValidationCode::InconsistentReport => "inconsistent_report",
        }
    }
}


/// Validation codes in declaration order.
pub open spec fn validation_code_at(i: int) -> SemanticGraphValidationCode {
    if i == 0 {
        SemanticGraphValidationCode::MissingSource
    } else if i == 1 {
        SemanticGraphValidationCode::MissingTarget
    } else if i == 2 {
        SemanticGraphValidationCode::InvalidEdgeEndpoints
    } else if i == 3 {
        SemanticGraphValidationCode::InvalidOwner
    } else if i == 4 {
        SemanticGraphValidationCode::MultipleOwners
    } else if i == 5 {
        SemanticGraphValidationCode::ForbiddenSelfLoop
    } else if i == 6 {
        SemanticGraphValidationCode::Cycle
    } else if i == 7 {
        SemanticGraphValidationCode::MissingNodeProvenance
    } else if i == 8 {
        SemanticGraphValidationCode::MissingEdgeProvenance
    } else if i == 9 {
        SemanticGraphValidationCode::InconsistentResolutionStatistics
    } else if i == 10 {
        SemanticGraphValidationCode::InconsistentDiagnosticStatistics
    } else {
        SemanticGraphValidationCode::InconsistentReport
    }
}

/// The validation code at position `i` of declaration order.
pub(crate) fn validation_code_at_position(i: usize) -> (r: SemanticGraphValidationCode)
    requires
        i < 12,
    ensures
        r == validation_code_at(i as int),
{
    if i == 0 {
        SemanticGraphValidationCode::MissingSource
    } else if i == 1 {
        SemanticGraphValidationCode::MissingTarget
    } else if i == 2 {
        SemanticGraphValidationCode::InvalidEdgeEndpoints
    } else if i == 3 {
        SemanticGraphValidationCode::InvalidOwner
    } else if i == 4 {
        SemanticGraphValidationCode::MultipleOwners
    } else if i == 5 {
        SemanticGraphValidationCode::ForbiddenSelfLoop
    } else if i == 6 {
        SemanticGraphValidationCode::Cycle
    } else if i == 7 {
        SemanticGraphValidationCode::MissingNodeProvenance
    } else if i == 8 {
        SemanticGraphValidationCode::MissingEdgeProvenance
    } else if i == 9 {
        SemanticGraphValidationCode::InconsistentResolutionStatistics
    } else if i == 10 {
        SemanticGraphValidationCode::InconsistentDiagnosticStatistics
    } else {
        SemanticGraphValidationCode::InconsistentReport
    }
}

} // verus!
