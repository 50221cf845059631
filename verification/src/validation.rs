//! Schemas that documents are validated against.

pub mod schema;
