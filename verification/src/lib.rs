//! Semantic model of 1C:Enterprise configurations: BSL source analysis, the
//! minimum query-language parser and the semantic graph value types.

pub mod bsl;
pub mod entity;
pub mod graph;
pub mod ordered;
pub mod query_language;
pub mod ranked;
pub mod source;
pub mod text;
