//! Cryptographic structures.

pub mod timestamp;
