//! Static analysis of competitive-programming sources: syntax trees lowered
//! from tree-sitter, a scoped symbol table, rule configuration, semantic rule
//! dispatch and diagnostics.
pub mod text;
pub mod name_map;
pub mod symbol_table;
pub mod source_table;
pub mod syntax;
pub mod language;
pub mod semantics;
pub mod grammar;
pub mod config;
pub mod diagnostics;
pub mod dispatcher;
pub mod rules;
pub mod analyzer;
pub mod lsp;
