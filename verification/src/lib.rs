//! Stable-identity core of an incremental source-analysis engine.
//!
//! The library assigns every item-like syntax node of a file a small stable
//! id that survives edits elsewhere in the tree, encodes in one fixed-width
//! integer whether a span of text comes from a real file or from the output
//! of one macro expansion, and chains interned hygiene contexts so that
//! identically spelled identifiers from different expansion steps stay
//! distinguishable.

pub mod ast_id_map;
pub mod file_id;
pub mod hygiene;
pub mod span;
pub mod syntax_tree;
