//! A compiler for a small schema-definition language: source text is parsed
//! into a tree of entities, the tree is checked for semantic defects, and a
//! checked tree is turned into an ordered script of table-creation statements.

pub mod ast;
pub mod error;
pub mod migration;
pub mod parser;
pub mod query;
pub mod sql;
pub mod stages;
pub mod text;
pub mod typechecker;
