//! Long-term validation material of a document.

use crate::types::{count_items, item_count, ValueShape};
use vstd::prelude::*;

verus! {

/// What the document security store holds.
#[derive(Debug, Clone, Copy, PartialEq, Eq, Structural)]
pub struct LtvInfo {
    pub has_dss: bool,
    pub vri_count: usize,
    pub certs_count: usize,
    pub ocsp_count: usize,
    pub crl_count: usize,
    pub timestamp_count: usize,
}

impl Default for LtvInfo {
    fn default() -> (r: Self)
        ensures
            !r.has_dss && r.vri_count == 0 && r.certs_count == 0 && r.ocsp_count == 0
                && r.crl_count == 0 && r.timestamp_count == 0,
    {
        LtvInfo {
            has_dss: false,
            vri_count: 0,
            certs_count: 0,
            ocsp_count: 0,
            crl_count: 0,
            timestamp_count: 0,
        }
    }
}

/// The entries of a document security store that its summary reads.
#[derive(Debug, Clone, Copy)]
pub struct DssEntries {
    pub certs: Option<ValueShape>,
    pub ocsps: Option<ValueShape>,
    pub crls: Option<ValueShape>,
    pub timestamps: Option<ValueShape>,
    pub vri: Option<ValueShape>,
}

/// How many entries the `VRI` dictionary holds.
pub open spec fn vri_count(v: Option<ValueShape>) -> usize {
    match v {
        Some(ValueShape::Dictionary(n)) => n,
        _ => 0,
    }
}

fn count_vri_entries(value: Option<ValueShape>) -> (r: usize)
    ensures
        r == vri_count(value),
{
    match value {
        Some(ValueShape::Dictionary(n)) => n,
        _ => 0,
    }
}

/// Summarises a document security store.
pub fn extract_ltv_info(dss: &DssEntries) -> (r: LtvInfo)
    ensures
        r.has_dss,
        r.certs_count == item_count(dss.certs),
        r.ocsp_count == item_count(dss.ocsps),
        r.crl_count == item_count(dss.crls),
        r.timestamp_count == item_count(dss.timestamps),
        r.vri_count == vri_count(dss.vri),
{
    LtvInfo {
        has_dss: true,
        vri_count: count_vri_entries(dss.vri),
        certs_count: count_items(dss.certs),
        ocsp_count: count_items(dss.ocsps),
        crl_count: count_items(dss.crls),
        timestamp_count: count_items(dss.timestamps),
    }
}

} // verus!
