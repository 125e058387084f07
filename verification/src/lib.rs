//! A parser for GraphQL request documents.
//!
//! [`parse_query`] turns source text into a [`Document`]: the operations
//! and fragment definitions in the order written, each node of the syntax
//! tree with the line and column of its first token. [`parse_value`] does
//! the same for a text that writes one value.
//! [`Document::retain_operation`] then resolves a document for a request:
//! it chooses the operation to execute and puts the fragments into a table
//! by name.
//!
//! The modules, from the text upward:
//!
//! - [`text`], [`pos`], [`position`]: strings and bytes, positions, and
//!   the cursor that computes them;
//! - [`grammar`], [`escape`]: tokens and ignored text, and the escapes of
//!   string literals;
//! - [`value`], [`query`], [`document`]: the syntax tree, and the
//!   resolution of a document;
//! - [`syntax`], [`progress`]: the grammar, production by production, and
//!   what holds of it;
//! - [`query_parser`]: the parser;
//! - [`validation`], [`scalars`]: a rule for resolved documents, and the
//!   scalar that passes any value through.

pub mod document;
pub mod error;
pub mod escape;
pub mod grammar;
pub mod pos;
pub mod position;
pub mod progress;
pub mod query;
pub mod query_parser;
pub mod scalars;
pub mod syntax;
pub mod text;
pub mod validation;
pub mod value;

pub use document::CurrentOperation;
pub use document::Document;
pub use document::FragmentsMap;
pub use error::Error;
pub use pos::Pos;
pub use pos::Positioned;
pub use query_parser::parse_query;
pub use query_parser::parse_value;
pub use query_parser::ParsedValue;
pub use value::Value;
