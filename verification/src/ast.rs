//! The abstract syntax tree: node identifiers, node kinds, per-node metadata and errors.

pub mod document;
pub mod error;
pub mod node;
pub mod provenance;

pub use error::AstError;
pub use node::{ErrorCode, NodeId, NodeMetadata, NodeType, ParseError};
