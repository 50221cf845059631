//! Verified building blocks of a PDF abstract-syntax-tree toolkit: node kinds and their
//! names, cross-reference tables and streams, linearization entries, object streams, stream
//! filters (JBIG2, JPX, LZW, run-length, Flate), byte-level scanners, security heuristics,
//! value validation and sanitizing, signature profiles, catalog checks, checks of changes to
//! the AST graph, plugin ordering, provenance, progress and chunk bookkeeping.

pub mod ast;
pub mod bindings;
pub mod byteseq;
pub mod compression;
pub mod crypto;
pub mod filters;
pub mod forms;
pub mod parser;
pub mod metadata;
pub mod multimedia;
pub mod performance;
pub mod plugins;
pub mod security;
pub mod streaming;
pub mod text;
pub mod transform;
pub mod types;
pub mod utf8_bounds;
pub mod validation;
