//! Document metadata.

pub mod icc;
