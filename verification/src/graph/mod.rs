//! The semantic graph: identifiers, kinds, provenance, queries, diffs and impact.

pub mod access_right;
pub mod build_diff;
pub mod coverage;
pub mod data_composition;
pub mod diagnostic;
pub mod diagnostic_diff;
pub mod diff;
pub mod edge;
pub mod edge_identity;
pub mod identity;
pub mod impact;
pub mod impact_analysis;
pub mod kind;
pub mod measure;
pub mod node;
pub mod provenance;
pub mod query;
pub mod reference_request;
pub mod report;
pub mod resolution;
pub mod semantic_graph;
pub mod semantic_query;
pub mod validation;
