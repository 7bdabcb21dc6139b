//! Extraction of program entities (classes, functions, fields, imports,
//! documentation and call references) from syntax trees of source files in
//! several programming languages, one JSON record per entity.
//!
//! A source file is parsed by tree-sitter (`grammar`) and read into a
//! `tree::SyntaxTree`, plain nodes in pre-order. Its entities are found by
//! depth-first passes over that tree (`walk`, `extract`), by a table of node
//! kinds (`rules`) or by the rules of one language (`swift`, `go`, `cpp`,
//! `python`, `rust_lang`), with the callees of `calls` and the documentation
//! of `docs`. Each record (`record`, `entity`) is rendered by `serde_json`
//! (`json`) and written as one line to a `writer::CountingWriter`, which
//! counts the lines. `index::IndexRun` keeps the counts and the failures of
//! a run over many files.

pub mod text;
pub mod tree;
pub mod json;
pub mod writer;
pub mod lang;
pub mod record;
pub mod walk;
pub mod calls;
pub mod entity;
pub mod docs;
pub mod rules;
pub mod swift;
pub mod cpp;
pub mod go;
pub mod python;
pub mod rust_lang;
pub mod extract;
pub mod grammar;
pub mod index;
