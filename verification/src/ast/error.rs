//! Errors raised while building or transforming an AST.

use vstd::prelude::*;

verus! {

/// `std::io::Error`, carried as an opaque value.
#[verifier::external_type_specification]
#[verifier::external_body]
pub struct ExIoError(std::io::Error);

/// `std::string::FromUtf8Error`, carried as an opaque value.
#[verifier::external_type_specification]
#[verifier::external_body]
pub struct ExFromUtf8Error(std::string::FromUtf8Error);

/// What went wrong while building or transforming an AST.
#[derive(Debug)]
pub enum AstError {
    ParseError(String),
    InvalidReference(u32, u16),
    InvalidReferenceString(String),
    MissingObject(String),
    InvalidStructure(String),
    UnsupportedFeature(String),
    IoError(std::io::Error),
    Utf8Error(std::string::FromUtf8Error),
    SerializationError(String),
    FilterError(String),
    EncryptionError(String),
    ValidationError(String),
    NodeNotFound(String),
}

} // verus!
