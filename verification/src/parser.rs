//! Parsing of cross-reference data.

pub mod lazy_stream;
pub mod object_parser;
pub mod xref;
pub mod xref_table;
