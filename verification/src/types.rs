//! PDF object types.

pub mod reference;

pub use reference::{ObjectId, PdfReference};

use vstd::prelude::*;

verus! {

/// What a count reads of a PDF value: an array with its number of items, a dictionary with
/// its number of entries, or any other value.
#[derive(Debug, Clone, Copy, PartialEq, Eq, Structural)]
pub enum ValueShape {
    Array(usize),
    Dictionary(usize),
    Other,
}

/// How many items a value holds: those of an array, one for a dictionary, none else.
pub open spec fn item_count(v: Option<ValueShape>) -> usize {
    match v {
        Some(ValueShape::Array(n)) => n,
        Some(ValueShape::Dictionary(_)) => 1,
        _ => 0,
    }
}

/// How many items a value holds, as [`item_count`] says.
pub fn count_items(value: Option<ValueShape>) -> (r: usize)
    ensures
        r == item_count(value),
{
    match value {
        Some(ValueShape::Array(n)) => n,
        Some(ValueShape::Dictionary(_)) => 1,
        _ => 0,
    }
}


/// A PDF value as the security checks read it. Names and dictionary keys are held without
/// their leading slash, strings as their text, a stream as its dictionary and the length of
/// its data; a real number is held without its value, which no check reads.
#[derive(Debug)]
pub enum PdfValue {
    Null,
    Boolean(bool),
    Integer(i64),
    Real,
    String(String),
    Name(String),
    Array(Vec<PdfValue>),
    Dictionary(Vec<(String, PdfValue)>),
    Stream(Vec<(String, PdfValue)>, usize),
    Reference(ObjectId),
}
} // verus!
