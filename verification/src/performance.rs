//! Memory-conscious reading of large files.

pub mod streaming;
pub mod progress;
