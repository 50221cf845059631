//! Stream filters and the errors they report.

pub mod jbig2;
pub mod jpx;

use vstd::prelude::*;

verus! {

/// Error reported by a stream filter.
#[derive(Debug, Clone)]
pub enum FilterError {
    /// The encoded data is malformed or truncated.
    InvalidData(String),
    /// The filter is not supported.
    UnsupportedFilter(String),
}

/// Result type of the filters.
pub type FilterResult<T> = Result<T, FilterError>;

/// Big-endian value of the `n` bytes of `d` starting at `p`.
pub open spec fn be_value(d: Seq<u8>, p: int, n: nat) -> nat
    decreases n,
{
    if n == 0 {
        0
    } else {
        be_value(d, p, (n - 1) as nat) * 256 + d[p + n - 1] as nat
    }
}

/// The message carried by an `InvalidData` error, if the result is one.
pub open spec fn invalid_data_message<T>(r: FilterResult<T>) -> Option<Seq<char>> {
    match r {
        Err(FilterError::InvalidData(m)) => Some(m@),
        _ => None,
    }
}

} // verus!
