//! Support shared by the language bindings.

pub mod utils;
