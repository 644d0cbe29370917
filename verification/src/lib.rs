//! Semantic front end for Lua sources: a lossless syntax tree with typed
//! grammar views, a per-file declaration and scope tree, a cross-file global
//! declaration table, and a line/offset index.

pub mod kind;
pub mod tree;
pub mod ast;
pub mod expr;
pub mod stat;
pub mod line_index;
pub mod decl;
pub mod scope;
pub mod decl_tree;
pub mod builder;
pub mod decl_index;
