//! Semantic analysis for Varlink interface definitions: positional queries over a
//! flattened syntax tree, a symbol table of declarations, consistency diagnostics,
//! reference resolution and rename, and documentation comments for hover cards;
//! besides, the per-node views an editor asks for (outline, folding, highlighting,
//! completion) and whole-document formatting through the Varlink formatter.

pub mod tree;
pub mod span_index;
pub mod symbols;
pub mod diagnostics;
pub mod resolve;
pub mod docstring;
pub mod outline;
pub mod completion;
pub mod format;
