//! Indirect references and object identifiers.

use vstd::prelude::*;

verus! {

/// An indirect reference `n g R`.
#[derive(Debug, Clone, Copy, PartialEq, Eq, Hash, Structural)]
pub struct PdfReference {
    pub object_number: u32,
    pub generation_number: u16,
}

/// The identifier of an indirect object: its number and generation.
#[derive(Debug, Clone, Copy, PartialEq, Eq, Hash, Structural)]
pub struct ObjectId {
    pub number: u32,
    pub generation: u16,
}

impl PdfReference {
    pub fn new(object_number: u32, generation_number: u16) -> (r: Self)
        ensures
            r.object_number == object_number,
            r.generation_number == generation_number,
    {
        PdfReference { object_number, generation_number }
    }

    /// The identifier of the referenced object.
    pub fn id(&self) -> (r: ObjectId)
        ensures
            r == id_of(*self),
    {
        ObjectId { number: self.object_number, generation: self.generation_number }
    }

    pub fn number(&self) -> (r: u32)
        ensures
            r == self.object_number,
    {
        self.object_number
    }

    pub fn generation(&self) -> (r: u16)
        ensures
            r == self.generation_number,
    {
        self.generation_number
    }

    /// Same as [`PdfReference::id`].
    pub fn object_id(&self) -> (r: ObjectId)
        ensures
            r == id_of(*self),
    {
        self.id()
    }
}

impl ObjectId {
    pub fn new(number: u32, generation: u16) -> (r: Self)
        ensures
            r.number == number,
            r.generation == generation,
    {
        ObjectId { number, generation }
    }

    /// The reference to this object.
    pub fn to_reference(&self) -> (r: PdfReference)
        ensures
            r == reference_of(*self),
    {
        PdfReference::new(self.number, self.generation)
    }
}

/// The identifier of the object that `r` refers to.
pub open spec fn id_of(r: PdfReference) -> ObjectId {
    ObjectId { number: r.object_number, generation: r.generation_number }
}

/// The reference to the object with identifier `id`.
pub open spec fn reference_of(id: ObjectId) -> PdfReference {
    PdfReference { object_number: id.number, generation_number: id.generation }
}

/// Converting an identifier to a reference and back gives the identifier, and converting
/// a reference to an identifier and back gives the reference.
pub proof fn lemma_reference_id_roundtrip(id: ObjectId, r: PdfReference)
    ensures
        id_of(reference_of(id)) == id,
        reference_of(id_of(r)) == r,
{
}

} // verus!
