//! An incremental, query-driven compiler for a tiny functional language:
//! integer literals, named definitions, lambdas, application, `+`/`-`, and
//! cross-file imports.
//!
//! The pipeline is pull-based: emitting a file asks for type checks, which ask
//! for resolution, which asks for parses, which ask for source text.  Every
//! derived result is memoized in a [`incremental::Database`] keyed by query:
//! within a revision a repeated question answers from the cache, and every
//! answer is proved equal to evaluating the query afresh from the inputs.
//! An edit that changes a file's text bumps the revision and retires the
//! cache, so demanded passes then re-execute; re-setting a file to the text
//! it already holds leaves the database untouched.
//!
//! Source text, names and rendered output are byte strings (`Vec<u8>`).

pub mod errors;
pub mod table;
pub mod ids;
pub mod ast;
pub mod tokens;
pub mod lexer;
pub mod parser;
pub mod definition_collection;
pub mod name_resolution;
pub mod type_inference;
pub mod backend;
pub mod incremental;
pub mod find_changed_files;
pub mod codec;
