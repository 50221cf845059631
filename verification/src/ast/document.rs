//! Document-level structures.

use vstd::prelude::*;

verus! {

/// An entry of a cross-reference table or stream.
#[derive(Debug, Clone, Copy, PartialEq, Eq, Structural)]
pub enum XRefEntry {
    InUse { offset: u64, generation: u16 },
    Free { next_free_object: u32, generation: u16 },
    Compressed { stream_object: u32, index: u32 },
}

impl XRefEntry {
    /// The generation number: that of an in-use or free entry, 0 for a compressed one.
    pub fn generation(&self) -> (r: u16)
        ensures
            r == match *self {
                XRefEntry::InUse { generation, .. } => generation,
                XRefEntry::Free { generation, .. } => generation,
                XRefEntry::Compressed { .. } => 0,
            },
    {
        match self {
            XRefEntry::InUse { generation, .. } | XRefEntry::Free { generation, .. } => *generation,
            XRefEntry::Compressed { .. } => 0,
        }
    }

    /// Check if this entry represents an object in use
    pub fn is_in_use(&self) -> (r: bool)
        ensures
            r == (*self is InUse || *self is Compressed),
    {
        match self {
            XRefEntry::InUse { .. } | XRefEntry::Compressed { .. } => true,
            _ => false,
        }
    }

    /// Check if this entry represents a free object
    pub fn is_free(&self) -> (r: bool)
        ensures
            r == *self is Free,
    {
        match self {
            XRefEntry::Free { .. } => true,
            _ => false,
        }
    }

    /// Get the offset for in-use objects
    pub fn offset(&self) -> (r: Option<u64>)
        ensures
            r == match *self {
                XRefEntry::InUse { offset, .. } => Some(offset),
                _ => None,
            },
    {
        match self {
            XRefEntry::InUse { offset, .. } => Some(*offset),
            _ => None,
        }
    }
}

} // verus!
