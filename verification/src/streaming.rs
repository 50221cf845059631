//! Processing of large documents in chunks.

pub mod chunks;
pub mod pipeline;
