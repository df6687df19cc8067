//! Core of a language server for BR, a line-numbered, case-insensitive,
//! CP437-encoded BASIC-family language.
//!
//! The crate turns source text and a concrete syntax tree into workspace-wide
//! language intelligence: a symbol index, diagnostics, navigation, rename,
//! completion and semantic tokens.  Everything that computes is specified and
//! verified; the opaque grammar and the process edges (I/O, transport) stay
//! outside, behind small trusted declarations.

pub mod builtins;
pub mod check;
pub mod code_action;
pub mod completions;
pub mod debounce;
pub mod definition;
pub mod diagnostics;
pub mod document;
pub mod extract;
pub mod hover;
pub mod layout;
pub mod parser;
pub mod references;
pub mod rename;
pub mod semantic_tokens;
pub mod symbols;
pub mod text;
pub mod tree;
pub mod types;
pub mod workspace;
