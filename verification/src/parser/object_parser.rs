//! Recovery when an object's stream or value cannot be read as declared.

use crate::byteseq::{copy_range, find_first, occurs_at};
use vstd::prelude::*;

verus! {

/// The marker `endstream`.
pub open spec fn endstream_marker() -> Seq<u8> {
    seq![0x65u8, 0x6e, 0x64, 0x73, 0x74, 0x72, 0x65, 0x61, 0x6d]
}

/// The marker `endobj`.
pub open spec fn endobj_marker() -> Seq<u8> {
    seq![0x65u8, 0x6e, 0x64, 0x6f, 0x62, 0x6a]
}

/// `p` is the first position of `needle` in `hay`.
pub open spec fn first_at(hay: Seq<u8>, needle: Seq<u8>, p: int) -> bool {
    occurs_at(hay, needle, p) && forall|j: int| 0 <= j < p ==> !occurs_at(hay, needle, j)
}

/// The first position of `needle` in `hay`, if it occurs.
pub open spec fn first_occurrence(hay: Seq<u8>, needle: Seq<u8>) -> Option<int> {
    if exists|p: int| first_at(hay, needle, p) {
        Some(choose|p: int| first_at(hay, needle, p))
    } else {
        None
    }
}

/// Where the stream data ends before an `endstream` at `pos`: before the line end (CR, LF
/// or CR LF) that precedes the marker.
pub open spec fn data_end_before(input: Seq<u8>, pos: int) -> int {
    let before = if pos > 0 && (input[pos - 1] == 0x0du8 || input[pos - 1] == 0x0au8) {
        pos - 1
    } else {
        pos
    };
    if before > 0 && input[before - 1] == 0x0du8 && input[before] == 0x0au8 {
        before - 1
    } else {
        before
    }
}

/// The data of a stream whose length is unknown, and how many bytes it and its
/// `endstream` take: the bytes up to the line end before the first `endstream`, or all of
/// them when there is none.
pub open spec fn endstream_split(input: Seq<u8>) -> (Seq<u8>, int) {
    match first_occurrence(input, endstream_marker()) {
        Some(p) => (input.subrange(0, data_end_before(input, p)), p + 9),
        None => (input, input.len() as int),
    }
}

/// Reads stream data up to its `endstream`: the data, and where the input continues.
pub fn parse_stream_with_endstream_detection(input: &[u8]) -> (r: (Vec<u8>, usize))
    ensures
        r.0@ == endstream_split(input@).0,
        r.1 == endstream_split(input@).1,
{
    let marker = vec![0x65u8, 0x6e, 0x64, 0x73, 0x74, 0x72, 0x65, 0x61, 0x6d];
    assert(marker@ =~= endstream_marker());
    match find_first(input, marker.as_slice()) {
        Some(pos) => {
            proof {
                assert(first_at(input@, endstream_marker(), pos as int));
                let q = choose|q: int| first_at(input@, endstream_marker(), q);
                assert(first_at(input@, endstream_marker(), q));
                if q < pos {
                    assert(!occurs_at(input@, endstream_marker(), q));
                }
                if pos < q {
                    assert(!occurs_at(input@, endstream_marker(), pos as int));
                }
                assert(q == pos);
                assert(endstream_marker().len() == 9);
            }
            let before = if pos > 0 && (input[pos - 1] == 0x0d || input[pos - 1] == 0x0a) {
                pos - 1
            } else {
                pos
            };
            let end = if before > 0 && input[before - 1] == 0x0d && input[before] == 0x0a {
                before - 1
            } else {
                before
            };
            (copy_range(input, 0, end), pos + 9)
        },
        None => {
            assert(!exists|p: int| first_at(input@, endstream_marker(), p));
            assert(input@.subrange(0, input@.len() as int) =~= input@);
            (copy_range(input, 0, input.len()), input.len())
        },
    }
}

/// Where the input continues after the first `endobj`, if there is one.
pub open spec fn after_endobj(input: Seq<u8>) -> Option<int> {
    match first_occurrence(input, endobj_marker()) {
        Some(p) => Some(p + 6),
        None => None,
    }
}

/// Skips past the first `endobj`, to resume after an object that could not be read.
pub fn recover_to_endobj(input: &[u8]) -> (r: Option<usize>)
    ensures
        match r {
            Some(k) => after_endobj(input@) == Some(k as int),
            None => after_endobj(input@) is None,
        },
{
    let marker = vec![0x65u8, 0x6e, 0x64, 0x6f, 0x62, 0x6a];
    assert(marker@ =~= endobj_marker());
    match find_first(input, marker.as_slice()) {
        Some(pos) => {
            proof {
                assert(first_at(input@, endobj_marker(), pos as int));
                let q = choose|q: int| first_at(input@, endobj_marker(), q);
                assert(first_at(input@, endobj_marker(), q));
                if q < pos {
                    assert(!occurs_at(input@, endobj_marker(), q));
                }
                if pos < q {
                    assert(!occurs_at(input@, endobj_marker(), pos as int));
                }
                assert(endobj_marker().len() == 6);
            }
            let len = input.len();
            assert(pos + 6 <= len);
            Some(pos + 6)
        },
        None => {
            assert(!exists|p: int| first_at(input@, endobj_marker(), p));
            None
        },
    }
}

} // verus!
