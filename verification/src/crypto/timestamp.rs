//! RFC 3161 time-stamp tokens.

use crate::text::str_eq;
use vstd::prelude::*;

verus! {

/// The accuracy a time-stamp authority states for its time.
#[derive(Debug, Clone, Copy, PartialEq, Eq, Structural)]
pub struct TimestampAccuracy {
    pub seconds: u64,
    pub millis: Option<u32>,
    pub micros: Option<u32>,
}


/// The name of the hash algorithm that an object identifier names: SHA-1, SHA-256, SHA-384
/// or SHA-512.
pub open spec fn hash_name_of_oid(oid: Seq<char>) -> Option<Seq<char>> {
    if oid == "1.3.14.3.2.26"@ {
        Some("SHA-1"@)
    } else if oid == "2.16.840.1.101.3.4.2.1"@ {
        Some("SHA-256"@)
    } else if oid == "2.16.840.1.101.3.4.2.2"@ {
        Some("SHA-384"@)
    } else if oid == "2.16.840.1.101.3.4.2.3"@ {
        Some("SHA-512"@)
    } else {
        None
    }
}

/// The name of the hash algorithm with object identifier `oid`.
pub fn map_hash_oid(oid: &str) -> (r: Option<&'static str>)
    ensures
        match r {
            Some(name) => hash_name_of_oid(oid@) == Some(name@),
            None => hash_name_of_oid(oid@) is None,
        },
{
    if str_eq(oid, "1.3.14.3.2.26") {
        Some("SHA-1")
    } else if str_eq(oid, "2.16.840.1.101.3.4.2.1") {
        Some("SHA-256")
    } else if str_eq(oid, "2.16.840.1.101.3.4.2.2") {
        Some("SHA-384")
    } else if str_eq(oid, "2.16.840.1.101.3.4.2.3") {
        Some("SHA-512")
    } else {
        None
    }
}

} // verus!
