//! A directory-tree analysis library: it models a filesystem subtree,
//! classifies files and directories against regex and metadata predicates,
//! aggregates raw and filtered statistics per directory, prunes branches
//! without matches, and lays out the surviving tree for display.

pub mod agg;
pub mod laws;
pub mod parent_ref;
pub mod pattern;
pub mod predicate;
pub mod render;
pub mod strutil;
pub mod tree;
