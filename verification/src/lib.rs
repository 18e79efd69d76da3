//! Hashedbuild: a reproducible build system driven by a small functional language.
//!
//! The library holds the data model of the language (values, mappings and
//! their total order), the content hashing of values, the syntax tree, the
//! reading of the parser's concrete syntax tree into it, and the evaluator.  Effects on the file system are described as requests that the
//! caller performs and records in a journal.

pub mod data;
pub mod sha256_hash;
pub mod ast;
pub mod runtime;
pub mod fs_entry;
pub mod effects;
pub mod eval;
pub mod text;
pub mod tree_sitter;
pub mod cli;
pub mod scheme;
pub mod paths;
pub mod store_dir;
