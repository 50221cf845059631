//! A pool of reusable byte buffers, and the cross-reference table read chunk by chunk.

use crate::byteseq::{contains_sequence, find_last, occurs_at};
use crate::parser::lazy_stream::utf8_text;
use crate::security::heuristics::startxref_marker;
use crate::text::{
    lemma_line_len, line_len, parse_unsigned, parse_unsigned_range, split_whitespace_ranges,
    split_words, text_lines,
};
use std::collections::VecDeque;
use vstd::prelude::*;
use vstd::utf8::{decode_utf8, valid_utf8};

verus! {

/// `Vec::capacity`: how many bytes the buffer holds without reallocating. The allocator
/// decides it; std documents only that it is never below the length, and that is all this
/// states.
#[verifier::external_body]
fn buffer_capacity(buffer: &Vec<u8>) -> (r: usize)
    ensures
        r >= buffer@.len(),
{
    buffer.capacity()
}

/// Keeps up to ten byte buffers for reuse.
pub struct BufferPool {
    buffers: VecDeque<Vec<u8>>,
    max_pool_size: usize,
}

impl BufferPool {
    /// The buffers held, oldest first.
    pub closed spec fn held(&self) -> Seq<Vec<u8>> {
        self.buffers@
    }

    /// The largest number of buffers held.
    pub closed spec fn limit(&self) -> usize {
        self.max_pool_size
    }

    pub fn new() -> (r: Self)
        ensures
            r.held().len() == 0,
            r.limit() == 10,
    {
        BufferPool { buffers: VecDeque::new(), max_pool_size: 10 }
    }

    /// An empty buffer: the first held buffer large enough for `min_size` bytes, with the
    /// buffers before it discarded, or a new one with room for at least `min_size` and 8192
    /// bytes when none is.
    pub fn get_buffer(&mut self, min_size: usize) -> (r: Vec<u8>)
        ensures
            r@.len() == 0,
            final(self).limit() == old(self).limit(),
            exists|k: int|
                0 <= k <= old(self).held().len() && final(self).held() == old(self).held().subrange(
                    k,
                    old(self).held().len() as int,
                ),
            old(self).held().len() > 0 ==> final(self).held().len() < old(self).held().len(),
    {
        let ghost start = self.buffers@;
        let ghost mut taken: int = 0;
        while self.buffers.len() > 0
            invariant
                0 <= taken <= start.len(),
                self.buffers@ == start.subrange(taken, start.len() as int),
                self.max_pool_size == old(self).max_pool_size,
                start == old(self).buffers@,
            decreases self.buffers@.len(),
        {
            let popped = self.buffers.pop_front();
            proof {
                taken = taken + 1;
            }
            assert(self.buffers@ =~= start.subrange(taken, start.len() as int));
            if let Some(mut buffer) = popped {
                if buffer_capacity(&buffer) >= min_size {
                    buffer.clear();
                    assert(self.held() == old(self).held().subrange(taken, start.len() as int));
                    return buffer;
                }
            }
        }
        let size = if min_size > 8192 {
            min_size
        } else {
            8192
        };
        assert(self.held() == old(self).held().subrange(taken, start.len() as int));
        Vec::with_capacity(size)
    }

    /// Keeps `buffer` for reuse when fewer than the limit are held and it has room for at
    /// least 1024 bytes (as one that already holds 1024 bytes always has); otherwise drops it.
    pub fn return_buffer(&mut self, buffer: Vec<u8>)
        ensures
            final(self).limit() == old(self).limit(),
            final(self).held() == old(self).held() || (old(self).held().len() < old(self).limit()
                && final(self).held() == old(self).held().push(buffer)),
            old(self).held().len() >= old(self).limit() ==> final(self).held() == old(self).held(),
            old(self).held().len() < old(self).limit() && buffer@.len() >= 1024
                ==> final(self).held() == old(self).held().push(buffer),
    {
        if self.buffers.len() < self.max_pool_size && buffer_capacity(&buffer) >= 1024 {
            self.buffers.push_back(buffer);
        }
    }
}

/// An entry of a streamed cross-reference table.
#[derive(Debug, Clone, Copy, PartialEq, Eq, Structural)]
pub struct XRefEntry {
    pub offset: u64,
    pub generation: u16,
    pub entry_type: XRefEntryType,
}

/// Whether a streamed entry is free or in use.
#[derive(Debug, Clone, Copy, PartialEq, Eq, Structural)]
pub enum XRefEntryType {
    Free,
    InUse,
}


/// Why a streamed reading of the cross-reference table failed.
#[derive(Debug, Clone, Copy, PartialEq, Eq, Structural)]
pub enum XRefScanError {
    /// The bytes read are not UTF-8.
    InvalidUtf8,
    /// Nothing follows the last `startxref`.
    NoXrefPosition,
    /// The word after the last `startxref` is not a `u64`.
    InvalidXrefPosition,
    /// The tail of the file holds no `startxref`.
    StartxrefNotFound,
    /// An entry's offset is not a `u64`.
    InvalidOffset,
    /// An entry's generation is not a `u16`.
    InvalidGeneration,
}

/// The text of each scan error.
pub open spec fn scan_error_text(e: XRefScanError) -> Seq<char> {
    match e {
        XRefScanError::InvalidUtf8 => "Invalid UTF-8"@,
        XRefScanError::NoXrefPosition => "No xref position"@,
        XRefScanError::InvalidXrefPosition => "Invalid xref position"@,
        XRefScanError::StartxrefNotFound => "startxref not found"@,
        XRefScanError::InvalidOffset => "Invalid offset"@,
        XRefScanError::InvalidGeneration => "Invalid generation"@,
    }
}

impl XRefScanError {
    /// The error's text.
    pub fn message(&self) -> (r: &'static str)
        ensures
            r@ == scan_error_text(*self),
    {
        match self {
            XRefScanError::InvalidUtf8 => "Invalid UTF-8",
            XRefScanError::NoXrefPosition => "No xref position",
            XRefScanError::InvalidXrefPosition => "Invalid xref position",
            XRefScanError::StartxrefNotFound => "startxref not found",
            XRefScanError::InvalidOffset => "Invalid offset",
            XRefScanError::InvalidGeneration => "Invalid generation",
        }
    }

    /// The error reports something missing rather than malformed data.
    pub fn is_not_found(&self) -> (r: bool)
        ensures
            r == (*self == XRefScanError::StartxrefNotFound),
    {
        match self {
            XRefScanError::StartxrefNotFound => true,
            _ => false,
        }
    }
}

/// The entry a line of a cross-reference table gives: a line of three words, an offset, a
/// generation and `n` or `f`, gives an entry; a line of another shape, or with another
/// status, gives none.
pub open spec fn xref_line_entry(line: Seq<char>) -> Result<Option<XRefEntry>, XRefScanError> {
    let parts = split_words(line);
    if parts.len() != 3 {
        Ok(None)
    } else {
        match parse_unsigned(parts[0], u64::MAX as nat) {
            None => Err(XRefScanError::InvalidOffset),
            Some(offset) => match parse_unsigned(parts[1], u16::MAX as nat) {
                None => Err(XRefScanError::InvalidGeneration),
                Some(generation) => if parts[2] == seq!['n'] {
                    Ok(
                        Some(
                            XRefEntry {
                                offset: offset as u64,
                                generation: generation as u16,
                                entry_type: XRefEntryType::InUse,
                            },
                        ),
                    )
                } else if parts[2] == seq!['f'] {
                    Ok(
                        Some(
                            XRefEntry {
                                offset: offset as u64,
                                generation: generation as u16,
                                entry_type: XRefEntryType::Free,
                            },
                        ),
                    )
                } else {
                    Ok(None)
                },
            },
        }
    }
}

/// Parses one line of a cross-reference table.
pub fn parse_xref_line(line: &str) -> (r: Result<Option<XRefEntry>, XRefScanError>)
    ensures
        r == xref_line_entry(line@),
{
    let parts = split_whitespace_ranges(line);
    let ghost words = split_words(line@);
    if parts.len() != 3 {
        return Ok(None);
    }
    let (a0, b0) = parts[0];
    assert(words[0] == line@.subrange(a0 as int, b0 as int));
    let offset = match parse_unsigned_range(line, a0, b0, u64::MAX) {
        Some(v) => v,
        None => {
            return Err(XRefScanError::InvalidOffset);
        },
    };
    let (a1, b1) = parts[1];
    assert(words[1] == line@.subrange(a1 as int, b1 as int));
    let generation = match parse_unsigned_range(line, a1, b1, 0xffff) {
        Some(v) => v as u16,
        None => {
            return Err(XRefScanError::InvalidGeneration);
        },
    };
    let (a2, b2) = parts[2];
    assert(words[2] == line@.subrange(a2 as int, b2 as int));
    if b2 - a2 == 1 {
        let c = line.get_char(a2);
        assert(words[2] =~= seq![c]);
        assert(seq!['n'][0] == 'n' && seq!['f'][0] == 'f' && words[2][0] == c);
        if c == 'n' {
            return Ok(Some(XRefEntry { offset, generation, entry_type: XRefEntryType::InUse }));
        } else if c == 'f' {
            return Ok(Some(XRefEntry { offset, generation, entry_type: XRefEntryType::Free }));
        }
    } else {
        assert(words[2].len() != 1);
    }
    Ok(None)
}

/// The entries that the lines give, in order, or the error of the first line that fails.
pub open spec fn xref_lines_entries(lines: Seq<Seq<char>>) -> Result<Seq<XRefEntry>, XRefScanError>
    decreases lines.len(),
{
    if lines.len() == 0 {
        Ok(seq![])
    } else {
        match xref_lines_entries(lines.drop_last()) {
            Err(e) => Err(e),
            Ok(prev) => match xref_line_entry(lines.last()) {
                Err(e) => Err(e),
                Ok(None) => Ok(prev),
                Ok(Some(x)) => Ok(prev.push(x)),
            },
        }
    }
}

/// Once a line fails, the lines after it change nothing.
proof fn lemma_lines_entries_failed(a: Seq<Seq<char>>, b: Seq<Seq<char>>)
    requires
        xref_lines_entries(a) is Err,
    ensures
        xref_lines_entries(a + b) == xref_lines_entries(a),
    decreases b.len(),
{
    if b.len() == 0 {
        assert(a + b =~= a);
    } else {
        lemma_lines_entries_failed(a, b.drop_last());
        assert((a + b).drop_last() =~= a + b.drop_last());
    }
}

/// The entries of a chunk of a cross-reference table: those of its lines when the chunk is
/// UTF-8.
pub open spec fn xref_chunk_entries(chunk: Seq<u8>) -> Result<Seq<XRefEntry>, XRefScanError> {
    if !valid_utf8(chunk) {
        Err(XRefScanError::InvalidUtf8)
    } else {
        xref_lines_entries(text_lines(decode_utf8(chunk)))
    }
}

/// Parses the entries of a chunk of a cross-reference table, line by line.
pub fn parse_xref_chunk(chunk: &[u8]) -> (r: Result<Vec<XRefEntry>, XRefScanError>)
    ensures
        match r {
            Ok(v) => xref_chunk_entries(chunk@) == Ok::<Seq<XRefEntry>, XRefScanError>(v@),
            Err(e) => xref_chunk_entries(chunk@) == Err::<Seq<XRefEntry>, XRefScanError>(e),
        },
{
    let text = match utf8_text(chunk) {
        Ok(t) => t,
        Err(_) => {
            return Err(XRefScanError::InvalidUtf8);
        },
    };
    let n = text.unicode_len();
    let mut entries: Vec<XRefEntry> = Vec::new();
    let mut i: usize = 0;
    let ghost mut done: Seq<Seq<char>> = seq![];
    assert(text@.subrange(0, n as int) =~= text@);
    assert(done + text_lines(text@) =~= text_lines(text@));
    while i < n
        invariant
            n == text@.len(),
            valid_utf8(chunk@),
            text@ == decode_utf8(chunk@),
            i <= n,
            done + text_lines(text@.subrange(i as int, n as int)) == text_lines(text@),
            xref_lines_entries(done) == Ok::<Seq<XRefEntry>, XRefScanError>(entries@),
        decreases n - i,
    {
        let ghost rest = text@.subrange(i as int, n as int);
        let start = i;
        let mut j = i;
        while j < n && text.get_char(j) != '\n'
            invariant
                n == text@.len(),
                start <= j <= n,
                line_len(text@.subrange(start as int, n as int)) == (j - start) + line_len(
                    text@.subrange(j as int, n as int),
                ),
            decreases n - j,
        {
            assert(text@.subrange(j as int, n as int).subrange(1, n - j) =~= text@.subrange(
                j + 1,
                n as int,
            ));
            j += 1;
        }
        let line = text.substring_char(start, j);
        let next = if j < n {
            j + 1
        } else {
            n
        };
        let ghost prev = done;
        proof {
            lemma_line_len(rest);
            assert(line_len(text@.subrange(j as int, n as int)) == 0);
            assert(rest.subrange(0, j - start) =~= line@);
            if j < n {
                assert(rest.subrange(j - start + 1, rest.len() as int) =~= text@.subrange(
                    next as int,
                    n as int,
                ));
                assert(text_lines(rest) == seq![line@] + text_lines(
                    text@.subrange(next as int, n as int),
                ));
            } else {
                assert(rest =~= line@);
                assert(text@.subrange(next as int, n as int) =~= Seq::<char>::empty());
                assert(text_lines(rest) == seq![line@]);
            }
            done = done.push(line@);
            assert(done + text_lines(text@.subrange(next as int, n as int)) =~= prev + text_lines(
                rest,
            ));
            assert(done.drop_last() =~= prev);
            assert(done.last() == line@);
        }
        match parse_xref_line(line) {
            Err(e) => {
                proof {
                    assert(xref_lines_entries(done) == Err::<Seq<XRefEntry>, XRefScanError>(e));
                    lemma_lines_entries_failed(done, text_lines(text@.subrange(next as int, n as int)));
                }
                return Err(e);
            },
            Ok(Some(x)) => {
                entries.push(x);
            },
            Ok(None) => {},
        }
        i = next;
    }
    assert(text@.subrange(n as int, n as int) =~= Seq::<char>::empty());
    assert(done =~= done + text_lines(text@.subrange(n as int, n as int)));
    Ok(entries)
}

/// `needle` occurs in `hay` at `i` and at no later position.
pub open spec fn last_at(hay: Seq<u8>, needle: Seq<u8>, i: int) -> bool {
    occurs_at(hay, needle, i) && forall|j: int| i < j ==> !occurs_at(hay, needle, j)
}

/// The last position of `needle` in `hay`, if it occurs.
pub open spec fn last_occurrence(hay: Seq<u8>, needle: Seq<u8>) -> Option<int> {
    if exists|i: int| last_at(hay, needle, i) {
        Some(choose|i: int| last_at(hay, needle, i))
    } else {
        None
    }
}

/// The position that the last `startxref` of the tail of a file gives: the first word after
/// it, as a `u64`.
pub open spec fn startxref_value(tail: Seq<u8>) -> Result<u64, XRefScanError> {
    match last_occurrence(tail, startxref_marker()) {
        None => Err(XRefScanError::StartxrefNotFound),
        Some(p) => {
            let after = tail.subrange(p + 9, tail.len() as int);
            if !valid_utf8(after) {
                Err(XRefScanError::InvalidUtf8)
            } else {
                let words = split_words(decode_utf8(after));
                if words.len() == 0 {
                    Err(XRefScanError::NoXrefPosition)
                } else {
                    match parse_unsigned(words[0], u64::MAX as nat) {
                        None => Err(XRefScanError::InvalidXrefPosition),
                        Some(v) => Ok(v as u64),
                    }
                }
            }
        },
    }
}

/// Where to read the tail of a file of `file_size` bytes: its last 1024 bytes, or all of it
/// when shorter.
pub fn trailer_search_window(file_size: u64) -> (r: (u64, usize))
    ensures
        r.1 == (if file_size < 1024 {
            file_size as int
        } else {
            1024
        }),
        r.0 == file_size - r.1,
{
    let search_size: u64 = if file_size < 1024 {
        file_size
    } else {
        1024
    };
    (file_size - search_size, search_size as usize)
}

/// The position of the cross-reference table that the tail of a file gives after its last
/// `startxref`.
pub fn find_trailer_position(tail: &[u8]) -> (r: Result<u64, XRefScanError>)
    ensures
        r == startxref_value(tail@),
{
    let marker = vec![0x73u8, 0x74, 0x61, 0x72, 0x74, 0x78, 0x72, 0x65, 0x66];
    assert(marker@ =~= startxref_marker());
    match find_last(tail, marker.as_slice()) {
        None => {
            assert(!exists|i: int| last_at(tail@, startxref_marker(), i));
            Err(XRefScanError::StartxrefNotFound)
        },
        Some(p) => {
            proof {
                assert(last_at(tail@, startxref_marker(), p as int));
                let q = choose|i: int| last_at(tail@, startxref_marker(), i);
                assert(last_at(tail@, startxref_marker(), q));
                assert(q == p);
                assert(startxref_marker().len() == 9);
                assert(occurs_at(tail@, startxref_marker(), p as int));
                assert(p + 9 <= tail@.len());
            }
            let len = tail.len();
            let after = vstd::slice::slice_subrange(tail, p + 9, len);
            let text = match utf8_text(after) {
                Ok(t) => t,
                Err(_) => {
                    return Err(XRefScanError::InvalidUtf8);
                },
            };
            let words = split_whitespace_ranges(text);
            if words.len() == 0 {
                return Err(XRefScanError::NoXrefPosition);
            }
            let (a, b) = words[0];
            match parse_unsigned_range(text, a, b, u64::MAX) {
                Some(v) => Ok(v),
                None => Err(XRefScanError::InvalidXrefPosition),
            }
        },
    }
}

/// One step of reading the cross-reference table chunk by chunk: after `chunk` was read at
/// `position`, the chunk's entries, and where to read next, or `None` once the chunk is
/// empty or holds `startxref`.
pub fn xref_scan_step(position: u64, chunk: &[u8]) -> (r: Result<
    (Vec<XRefEntry>, Option<u64>),
    XRefScanError,
>)
    requires
        position + chunk@.len() <= u64::MAX,
    ensures
        chunk@.len() == 0 ==> (r matches Ok((v, next)) && v@.len() == 0 && next is None),
        chunk@.len() > 0 ==> match xref_chunk_entries(chunk@) {
            Err(e) => r matches Err(e2) && e2 == e,
            Ok(es) => r matches Ok((v, next)) && v@ == es && next == (if exists|j: int|
                occurs_at(chunk@, startxref_marker(), j) {
                None
            } else {
                Some((position + chunk@.len()) as u64)
            }),
        },
{
    if chunk.len() == 0 {
        return Ok((Vec::new(), None));
    }
    let entries = match parse_xref_chunk(chunk) {
        Ok(v) => v,
        Err(e) => {
            return Err(e);
        },
    };
    let marker = vec![0x73u8, 0x74, 0x61, 0x72, 0x74, 0x78, 0x72, 0x65, 0x66];
    assert(marker@ =~= startxref_marker());
    if contains_sequence(chunk, marker.as_slice()) {
        Ok((entries, None))
    } else {
        Ok((entries, Some(position + chunk.len() as u64)))
    }
}

} // verus!
