//! Sixu: a scripting language for visual novels, with a verified
//! tolerant parser, formatter and fingerprinting of its syntax trees.
pub mod error;
pub mod format;
pub mod text;
pub mod span;
pub mod cst;
pub mod cst_ast;
pub mod cst_format;
pub mod cst_format_laws;
pub mod cst_grammar;
pub mod cst_parser;
pub mod cst_reader_laws;
pub mod cst_helper;
pub mod sorting;
pub mod fingerprint;
pub mod fingerprint_laws;
pub mod formatter;
pub mod runtime_state;
pub mod runtime;
pub mod runtime_laws;
pub mod schema;
pub mod lsp;
pub mod completion;
pub mod lsp_laws;
