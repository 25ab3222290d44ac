//! Verified engine for reconciling two tabular datasets.
//!
//! The crate classifies every row of a source and a target table as added,
//! removed, modified or unchanged, either by primary-key lookup or by
//! content-based fuzzy matching, and ships the result through a compact
//! binary codec.  Contracts are stated over sequence-level models of the
//! datasets; record reading and Unicode case folding are delegated to
//! outside collaborators behind narrow trusted wrappers.

pub mod text;
pub mod utils;
pub mod types;
pub mod parse;
pub mod similarity;
pub mod engine;
pub mod primary_key;
pub mod content_match;
pub mod binary;
pub mod streaming;
pub mod profiling;
pub mod laws;
