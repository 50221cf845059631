//! Chunk bookkeeping for chunked processing: what was processed at each offset, a bounded
//! cache of chunk data, and integrity checksums.

use crate::ast::AstError;
use vstd::prelude::*;

verus! {

/// Information about a processed chunk.
#[derive(Debug, Clone, Copy, PartialEq, Eq, Structural)]
pub struct ProcessedChunkInfo {
    pub offset: u64,
    pub size: usize,
    pub node_count: usize,
    pub processing_time_ms: u64,
    pub error_count: usize,
    pub checksum: u32,
}

/// An error that occurred while processing a chunk.
#[derive(Debug, Clone)]
pub struct ChunkError {
    pub offset: u64,
    pub error_type: ChunkErrorType,
    pub message: String,
}

/// The kind of a chunk processing error.
#[derive(Debug, Clone, Copy, PartialEq, Eq, Structural)]
pub enum ChunkErrorType {
    ProcessingError,
    ParseError,
    MemoryError,
    IOError,
    FallbackProcessing,
}

/// A warning raised while processing a chunk.
#[derive(Debug, Clone)]
pub struct ChunkWarning {
    pub offset: u64,
    pub warning_type: ChunkWarningType,
    pub message: String,
}

/// The kind of a chunk processing warning.
#[derive(Debug, Clone, Copy, PartialEq, Eq, Structural)]
pub enum ChunkWarningType {
    PartialProcessing,
    DataIncomplete,
    SubChunkError,
    PerformanceWarning,
}

/// What one step of chunked reading hands on: the chunk to process and the offset it is
/// processed at, then the overlap and offset for the next read, and whether to read on.
#[derive(Debug, Clone)]
pub struct ChunkStep {
    pub chunk_data: Vec<u8>,
    pub chunk_offset: u64,
    pub next_overlap: Vec<u8>,
    pub next_offset: u64,
    pub more: bool,
}

/// The size of the pieces a chunk is split into when it cannot be processed whole.
pub const SUB_CHUNK_SIZE: usize = 1024;

/// `v` holds the first `n` pieces of a `len`-byte chunk: piece `k` runs from `1024 * k` to
/// the next multiple of 1024, or to the end.
pub open spec fn sub_chunk_prefix(len: int, v: Seq<(usize, usize)>) -> bool {
    forall|k: int| 0 <= k < v.len() ==> (#[trigger] v[k].0 == 1024 * k && v[k].1 == piece_end(len, k))
}

/// Where piece `k` of a `len`-byte chunk ends.
pub open spec fn piece_end(len: int, k: int) -> int {
    if 1024 * (k + 1) < len {
        1024 * (k + 1)
    } else {
        len
    }
}

/// The pieces a chunk of `len` bytes is processed in after it failed whole: none when it
/// is at most 1024 bytes (it is not split), else all its consecutive 1024-byte pieces, the
/// last one possibly shorter.
pub fn fallback_sub_chunks(len: usize) -> (r: Option<Vec<(usize, usize)>>)
    ensures
        len <= 1024 ==> r is None,
        len > 1024 ==> (r matches Some(v) && v@.len() == (len + 1023) / 1024 && sub_chunk_prefix(
            len as int,
            v@,
        )),
{
    if len <= SUB_CHUNK_SIZE {
        return None;
    }
    let mut v: Vec<(usize, usize)> = Vec::new();
    let mut offset: usize = 0;
    while offset < len
        invariant
            len > 1024,
            offset == 1024 * v@.len(),
            offset < len,
            sub_chunk_prefix(len as int, v@),
        decreases len - offset,
    {
        let end = if len - offset > SUB_CHUNK_SIZE {
            offset + SUB_CHUNK_SIZE
        } else {
            len
        };
        let ghost k = v@.len() as int;
        let ghost before = v@;
        v.push((offset, end));
        assert forall|j: int| 0 <= j < v@.len() implies (#[trigger] v@[j].0 == 1024 * j && v@[j].1
            == piece_end(len as int, j)) by {
            if j < k {
                assert(v@[j] == before[j]);
            } else {
                assert(v@[j] == (offset, end));
            }
        }
        if len - offset > SUB_CHUNK_SIZE {
            offset = offset + SUB_CHUNK_SIZE;
        } else {
            assert(v@.len() == (len + 1023) / 1024) by (nonlinear_arith)
                requires
                    offset == 1024 * (v@.len() - 1),
                    offset < len,
                    len - offset <= 1024,
            ;
            return Some(v);
        }
    }
    Some(v)
}

/// What a chunk that could not be processed whole records: the failure, with the error's
/// text, and for a chunk over 1024 bytes also that it is retried in pieces, together with
/// those pieces (none for a smaller chunk, which is not retried).
pub fn chunk_failure(data_len: usize, offset: u64, error_text: &str) -> (r: (
    Vec<ChunkError>,
    Option<Vec<(usize, usize)>>,
))
    ensures
        r.0@.len() == if data_len > 1024 {
            2int
        } else {
            1int
        },
        r.0@[0].offset == offset,
        r.0@[0].error_type == ChunkErrorType::ProcessingError,
        r.0@[0].message@ == "Failed to process chunk: "@ + error_text@,
        data_len > 1024 ==> r.0@[1].offset == offset && r.0@[1].error_type
            == ChunkErrorType::FallbackProcessing && r.0@[1].message@
            == "Attempting sub-chunk processing"@,
        data_len <= 1024 ==> r.1 is None,
        data_len > 1024 ==> (r.1 matches Some(v) && v@.len() == (data_len + 1023) / 1024
            && sub_chunk_prefix(data_len as int, v@)),
{
    let mut message = "Failed to process chunk: ".to_string();
    message.append(error_text);
    let mut errors: Vec<ChunkError> = Vec::new();
    errors.push(ChunkError { offset, error_type: ChunkErrorType::ProcessingError, message });
    let pieces = fallback_sub_chunks(data_len);
    if pieces.is_some() {
        errors.push(
            ChunkError {
                offset,
                error_type: ChunkErrorType::FallbackProcessing,
                message: "Attempting sub-chunk processing".to_string(),
            },
        );
    }
    (errors, pieces)
}

/// The warning for a piece, starting `start` bytes into a chunk at `offset`, that could not
/// be processed: at the piece's own offset, with the error's text.
pub fn sub_chunk_failure(offset: u64, start: usize, error_text: &str) -> (r: ChunkWarning)
    requires
        offset + start <= u64::MAX,
    ensures
        r.offset == offset + start,
        r.warning_type == ChunkWarningType::SubChunkError,
        r.message@ == "Sub-chunk processing failed: "@ + error_text@,
{
    let mut message = "Sub-chunk processing failed: ".to_string();
    message.append(error_text);
    ChunkWarning { offset: offset + start as u64, warning_type: ChunkWarningType::SubChunkError, message }
}

/// Running totals over the chunks processed so far, with each chunk's record in order.
#[derive(Debug, Clone)]
pub struct ChunkProcessingResult {
    pub total_chunks: usize,
    pub total_nodes: usize,
    pub total_errors: usize,
    pub total_warnings: usize,
    pub total_bytes: u64,
    pub total_processing_time_ms: u64,
    pub chunk_infos: Vec<ProcessedChunkInfo>,
}

impl Default for ChunkProcessingResult {
    fn default() -> (r: Self)
        ensures
            r.total_chunks == 0,
            r.total_nodes == 0,
            r.total_errors == 0,
            r.total_warnings == 0,
            r.total_bytes == 0,
            r.total_processing_time_ms == 0,
            r.chunk_infos@.len() == 0,
    {
        Self::new()
    }
}

/// The number of chunks among `infos` that had an error.
pub open spec fn failed_chunks(infos: Seq<ProcessedChunkInfo>) -> nat
    decreases infos.len(),
{
    if infos.len() == 0 {
        0
    } else {
        failed_chunks(infos.drop_last()) + if infos.last().error_count > 0 {
            1nat
        } else {
            0nat
        }
    }
}

impl ChunkProcessingResult {
    /// No chunk processed yet.
    pub fn new() -> (r: Self)
        ensures
            r.total_chunks == 0,
            r.total_nodes == 0,
            r.total_errors == 0,
            r.total_warnings == 0,
            r.total_bytes == 0,
            r.total_processing_time_ms == 0,
            r.chunk_infos@.len() == 0,
    {
        ChunkProcessingResult {
            total_chunks: 0,
            total_nodes: 0,
            total_errors: 0,
            total_warnings: 0,
            total_bytes: 0,
            total_processing_time_ms: 0,
            chunk_infos: Vec::new(),
        }
    }

    /// Adds a processed chunk, with the number of warnings raised on it, to the totals.
    pub fn add_chunk_result(&mut self, warning_count: usize, info: ProcessedChunkInfo)
        requires
            old(self).total_chunks + 1 <= usize::MAX,
            old(self).total_nodes + info.node_count <= usize::MAX,
            old(self).total_errors + info.error_count <= usize::MAX,
            old(self).total_warnings + warning_count <= usize::MAX,
            old(self).total_bytes + info.size <= u64::MAX,
            old(self).total_processing_time_ms + info.processing_time_ms <= u64::MAX,
        ensures
            final(self).total_chunks == old(self).total_chunks + 1,
            final(self).total_nodes == old(self).total_nodes + info.node_count,
            final(self).total_errors == old(self).total_errors + info.error_count,
            final(self).total_warnings == old(self).total_warnings + warning_count,
            final(self).total_bytes == old(self).total_bytes + info.size,
            final(self).total_processing_time_ms == old(self).total_processing_time_ms
                + info.processing_time_ms,
            final(self).chunk_infos@ == old(self).chunk_infos@.push(info),
    {
        self.total_chunks = self.total_chunks + 1;
        self.total_nodes = self.total_nodes + info.node_count;
        self.total_errors = self.total_errors + info.error_count;
        self.total_warnings = self.total_warnings + warning_count;
        self.total_bytes = self.total_bytes + info.size as u64;
        self.total_processing_time_ms = self.total_processing_time_ms + info.processing_time_ms;
        self.chunk_infos.push(info);
    }

    /// The number of chunks that had an error.
    pub fn failed_chunk_count(&self) -> (r: usize)
        ensures
            r == failed_chunks(self.chunk_infos@),
    {
        let mut count: usize = 0;
        let mut i: usize = 0;
        while i < self.chunk_infos.len()
            invariant
                i <= self.chunk_infos@.len(),
                count == failed_chunks(self.chunk_infos@.subrange(0, i as int)),
                count <= i,
            decreases self.chunk_infos@.len() - i,
        {
            assert(self.chunk_infos@.subrange(0, i + 1).drop_last() =~= self.chunk_infos@.subrange(
                0,
                i as int,
            ));
            if self.chunk_infos[i].error_count > 0 {
                count += 1;
            }
            i += 1;
        }
        assert(self.chunk_infos@.subrange(0, i as int) =~= self.chunk_infos@);
        count
    }
}

/// The checksum of `data`: starting from 0, each byte is added to 31 times the running
/// value, modulo 2^32.
pub open spec fn checksum(data: Seq<u8>) -> u32
    decreases data.len(),
{
    if data.len() == 0 {
        0
    } else {
        ((checksum(data.drop_last()) as nat * 31 + data.last() as nat) % 0x1_0000_0000) as u32
    }
}

/// The offsets of a list of entries.
pub open spec fn keys_of<V>(entries: Seq<(u64, V)>) -> Seq<u64> {
    entries.map_values(|e: (u64, V)| e.0)
}

/// The offsets strictly increase.
pub open spec fn strictly_sorted(keys: Seq<u64>) -> bool {
    forall|i: int, j: int| 0 <= i < j < keys.len() ==> keys[i] < keys[j]
}

/// `entries` with `value` stored at `key`: replacing the value of an equal key, or inserted
/// before the first greater key.
pub open spec fn upsert<V>(entries: Seq<(u64, V)>, key: u64, value: V) -> Seq<(u64, V)>
    decreases entries.len(),
{
    if entries.len() == 0 {
        seq![(key, value)]
    } else if entries[0].0 < key {
        seq![entries[0]] + upsert(entries.drop_first(), key, value)
    } else if entries[0].0 == key {
        seq![(key, value)] + entries.drop_first()
    } else {
        seq![(key, value)] + entries
    }
}

/// Bookkeeping of chunked processing.
pub struct ChunkProcessor {
    chunk_size: usize,
    overlap_size: usize,
    /// The processed chunks, by increasing offset.
    processed_chunks: Vec<(u64, ProcessedChunkInfo)>,
    /// The cached chunk data, by increasing offset.
    chunk_cache: Vec<(u64, Vec<u8>)>,
    max_cache_size: usize,
}

/// The cache as offsets with the data at each.
pub open spec fn cache_entries(v: Seq<(u64, Vec<u8>)>) -> Seq<(u64, Seq<u8>)> {
    v.map_values(|e: (u64, Vec<u8>)| (e.0, e.1@))
}

/// The data cached at `offset` has the checksum recorded for the chunk processed there.
pub open spec fn chunk_verifies(p: ChunkProcessor, offset: u64) -> bool {
    exists|i: int, j: int|
        0 <= i < p.cached().len() && 0 <= j < p.processed().len() && p.cached()[i].0 == offset
            && p.processed()[j].0 == offset && checksum(p.cached()[i].1)
            == p.processed()[j].1.checksum
}

impl ChunkProcessor {
    #[verifier::type_invariant]
    spec fn sorted_by_offset(self) -> bool {
        &&& strictly_sorted(keys_of(self.processed_chunks@))
        &&& strictly_sorted(keys_of(self.chunk_cache@))
    }

    /// The processed chunks, by increasing offset.
    pub closed spec fn processed(&self) -> Seq<(u64, ProcessedChunkInfo)> {
        self.processed_chunks@
    }

    /// The cached chunks, by increasing offset.
    pub closed spec fn cached(&self) -> Seq<(u64, Seq<u8>)> {
        cache_entries(self.chunk_cache@)
    }

    pub closed spec fn chunk_size_spec(&self) -> usize {
        self.chunk_size
    }

    pub closed spec fn overlap_size_spec(&self) -> usize {
        self.overlap_size
    }

    pub closed spec fn max_cache_size_spec(&self) -> usize {
        self.max_cache_size
    }

    /// The size of the chunks read.
    pub fn chunk_size(&self) -> (r: usize)
        ensures
            r == self.chunk_size_spec(),
    {
        self.chunk_size
    }

    /// How much of each chunk is read again with the next.
    pub fn overlap_size(&self) -> (r: usize)
        ensures
            r == self.overlap_size_spec(),
    {
        self.overlap_size
    }

    /// Get chunk by offset.
    pub fn get_chunk(&self, offset: u64) -> (r: Option<&Vec<u8>>)
        ensures
            match r {
                Some(v) => exists|i: int|
                    0 <= i < self.cached().len() && self.cached()[i] == (offset, v@),
                None => forall|i: int| 0 <= i < self.cached().len() ==> self.cached()[i].0 != offset,
            },
    {
        let n = self.chunk_cache.len();
        let mut i: usize = 0;
        while i < n
            invariant
                n == self.chunk_cache@.len(),
                i <= n,
                forall|j: int| 0 <= j < i ==> self.chunk_cache@[j].0 != offset,
            decreases n - i,
        {
            if self.chunk_cache[i].0 == offset {
                assert(self.cached()[i as int] == (offset, self.chunk_cache@[i as int].1@));
                return Some(&self.chunk_cache[i].1);
            }
            i += 1;
        }
        None
    }

    /// Get chunk information.
    pub fn get_chunk_info(&self, offset: u64) -> (r: Option<&ProcessedChunkInfo>)
        ensures
            match r {
                Some(info) => exists|i: int|
                    0 <= i < self.processed().len() && self.processed()[i] == (offset, *info),
                None => forall|i: int|
                    0 <= i < self.processed().len() ==> self.processed()[i].0 != offset,
            },
    {
        let n = self.processed_chunks.len();
        let mut i: usize = 0;
        while i < n
            invariant
                n == self.processed_chunks@.len(),
                i <= n,
                forall|j: int| 0 <= j < i ==> self.processed_chunks@[j].0 != offset,
            decreases n - i,
        {
            if self.processed_chunks[i].0 == offset {
                assert(self.processed()[i as int] == (offset, self.processed_chunks@[i as int].1));
                return Some(&self.processed_chunks[i].1);
            }
            i += 1;
        }
        None
    }

    /// All processed chunk offsets, in increasing order.
    pub fn get_processed_offsets(&self) -> (r: Vec<u64>)
        ensures
            r@ == keys_of(self.processed()),
            strictly_sorted(r@),
    {
        proof {
            use_type_invariant(self);
        }
        let mut out: Vec<u64> = Vec::new();
        let mut i: usize = 0;
        while i < self.processed_chunks.len()
            invariant
                i <= self.processed_chunks@.len(),
                out@ == keys_of(self.processed_chunks@).subrange(0, i as int),
            decreases self.processed_chunks@.len() - i,
        {
            out.push(self.processed_chunks[i].0);
            assert(out@ =~= keys_of(self.processed_chunks@).subrange(0, i + 1));
            i += 1;
        }
        assert(out@ =~= keys_of(self.processed_chunks@));
        out
    }

    /// A simple checksum for data integrity.
    pub fn calculate_checksum(&self, data: &[u8]) -> (r: u32)
        ensures
            r == checksum(data@),
    {
        let mut acc: u32 = 0;
        let mut i: usize = 0;
        while i < data.len()
            invariant
                i <= data@.len(),
                acc == checksum(data@.subrange(0, i as int)),
            decreases data@.len() - i,
        {
            assert(data@.subrange(0, i + 1).drop_last() =~= data@.subrange(0, i as int));
            acc = acc.wrapping_mul(31).wrapping_add(data[i] as u32);
            i += 1;
        }
        assert(data@.subrange(0, i as int) =~= data@);
        acc
    }

    /// Whether the cached data at `offset` still has the checksum recorded when it was
    /// processed; false when either is missing.
    pub fn verify_chunk(&self, offset: u64) -> (r: Result<bool, AstError>)
        ensures
            r == Ok::<bool, AstError>(chunk_verifies(*self, offset)),
    {
        proof {
            use_type_invariant(self);
        }
        if let Some(chunk) = self.get_chunk(offset) {
            if let Some(info) = self.get_chunk_info(offset) {
                let current = self.calculate_checksum(chunk.as_slice());
                proof {
                    let i = choose|i: int| 0 <= i < self.cached().len() && self.cached()[i] == (offset, chunk@);
                    let j = choose|j: int| 0 <= j < self.processed().len() && self.processed()[j] == (offset, *info);
                    assert forall|i2: int, j2: int|
                        0 <= i2 < self.cached().len() && 0 <= j2 < self.processed().len()
                            && self.cached()[i2].0 == offset && self.processed()[j2].0 == offset
                        implies i2 == i && j2 == j by {
                        assert(keys_of(self.chunk_cache@)[i2] == offset);
                        assert(keys_of(self.chunk_cache@)[i] == offset);
                        assert(keys_of(self.processed_chunks@)[j2] == offset);
                        assert(keys_of(self.processed_chunks@)[j] == offset);
                    }
                }
                return Ok(current == info.checksum);
            }
        }
        Ok(false)
    }

    /// Keeps only the `keep_recent` chunks with the highest offsets in the cache.
    pub fn cleanup_cache(&mut self, keep_recent: usize)
        ensures
            final(self).cached() == if old(self).cached().len() > keep_recent {
                old(self).cached().subrange(
                    old(self).cached().len() - keep_recent,
                    old(self).cached().len() as int,
                )
            } else {
                old(self).cached()
            },
            final(self).processed() == old(self).processed(),
            final(self).chunk_size_spec() == old(self).chunk_size_spec(),
            final(self).overlap_size_spec() == old(self).overlap_size_spec(),
            final(self).max_cache_size_spec() == old(self).max_cache_size_spec(),
            strictly_sorted(keys_of(old(self).cached())),
            strictly_sorted(keys_of(final(self).cached())),
    {
        proof {
            use_type_invariant(&*self);
            assert(keys_of(self.cached()) =~= keys_of(self.chunk_cache@));
        }
        let n = self.chunk_cache.len();
        if n > keep_recent {
            let to_remove = n - keep_recent;
            let mut kept: Vec<(u64, Vec<u8>)> = Vec::new();
            let mut old_cache: Vec<(u64, Vec<u8>)> = Vec::new();
            std::mem::swap(&mut old_cache, &mut self.chunk_cache);
            let ghost before = old_cache@;
            let mut i: usize = 0;
            while i < n
                invariant
                    n == before.len(),
                    to_remove <= n,
                    i <= n,
                    old_cache@.len() + i == n,
                    old_cache@ == before.subrange(i as int, n as int),
                    i <= to_remove ==> kept@.len() == 0,
                    i > to_remove ==> kept@ == before.subrange(to_remove as int, i as int),
                decreases n - i,
            {
                let e = old_cache.remove(0);
                assert(e == before[i as int]);
                if i >= to_remove {
                    kept.push(e);
                }
                assert(old_cache@ =~= before.subrange(i + 1, n as int));
                assert(i + 1 > to_remove ==> kept@ =~= before.subrange(to_remove as int, i + 1));
                i += 1;
            }
            proof {
                assert(keys_of(kept@) =~= keys_of(before).subrange(to_remove as int, n as int));
                if to_remove == n {
                    assert(kept@ =~= before.subrange(to_remove as int, n as int));
                }
            }
            self.chunk_cache = kept;
            assert(cache_entries(self.chunk_cache@) =~= cache_entries(before).subrange(
                to_remove as int,
                n as int,
            ));
        }
        proof {
            use_type_invariant(&*self);
            assert(keys_of(self.cached()) =~= keys_of(self.chunk_cache@));
        }
    }

    /// A processor with the given chunk, overlap and cache sizes (those of a chunk
    /// configuration), with nothing processed or cached.
    pub fn new(chunk_size: usize, overlap_size: usize, max_cache_size: usize) -> (r: Self)
        ensures
            r.chunk_size_spec() == chunk_size,
            r.overlap_size_spec() == overlap_size,
            r.max_cache_size_spec() == max_cache_size,
            r.processed().len() == 0,
            r.cached().len() == 0,
    {
        ChunkProcessor {
            chunk_size,
            overlap_size,
            processed_chunks: Vec::new(),
            chunk_cache: Vec::new(),
            max_cache_size,
        }
    }

    /// One step of reading a file in chunks. `read` is what was read at `current_offset`
    /// (at most one chunk, not empty) and `overlap` the tail kept from the previous chunk.
    /// The chunk handed on is the overlap followed by what was read, at the offset where
    /// the overlap began; the next overlap is the last `overlap_size` bytes read; the next
    /// read starts `overlap_size` bytes before the end of this one; and reading goes on
    /// only after a full chunk.
    pub fn chunk_step(&self, current_offset: u64, overlap: &[u8], read: &[u8]) -> (r: ChunkStep)
        requires
            0 < read@.len() <= self.chunk_size_spec(),
            self.overlap_size_spec() <= read@.len(),
            current_offset + read@.len() <= u64::MAX,
        ensures
            r.chunk_data@ == overlap@ + read@,
            r.chunk_offset == if current_offset >= overlap@.len() {
                current_offset - overlap@.len()
            } else {
                0
            },
            r.next_overlap@ == read@.subrange(
                read@.len() - self.overlap_size_spec(),
                read@.len() as int,
            ),
            r.next_offset == current_offset + read@.len() - self.overlap_size_spec(),
            r.more == (read@.len() == self.chunk_size_spec()),
    {
        let n = read.len();
        let mut chunk_data: Vec<u8> = Vec::new();
        let mut i: usize = 0;
        while i < overlap.len()
            invariant
                i <= overlap@.len(),
                chunk_data@ == overlap@.subrange(0, i as int),
            decreases overlap@.len() - i,
        {
            chunk_data.push(overlap[i]);
            assert(chunk_data@ =~= overlap@.subrange(0, i + 1));
            i += 1;
        }
        let mut j: usize = 0;
        while j < n
            invariant
                n == read@.len(),
                j <= n,
                chunk_data@ == overlap@ + read@.subrange(0, j as int),
            decreases n - j,
        {
            chunk_data.push(read[j]);
            assert(chunk_data@ =~= overlap@ + read@.subrange(0, j + 1));
            j += 1;
        }
        assert(read@.subrange(0, n as int) =~= read@);
        let ov = overlap.len() as u64;
        let chunk_offset = if current_offset >= ov {
            current_offset - ov
        } else {
            0
        };
        let start = n - self.overlap_size;
        let mut next_overlap: Vec<u8> = Vec::new();
        let mut k: usize = start;
        while k < n
            invariant
                n == read@.len(),
                start <= k <= n,
                next_overlap@ == read@.subrange(start as int, k as int),
            decreases n - k,
        {
            next_overlap.push(read[k]);
            assert(next_overlap@ =~= read@.subrange(start as int, k + 1));
            k += 1;
        }
        let next_offset = current_offset + n as u64 - self.overlap_size as u64;
        ChunkStep {
            chunk_data,
            chunk_offset,
            next_overlap,
            next_offset,
            more: n == self.chunk_size,
        }
    }

    /// Records a processed chunk at `offset`, replacing an earlier record there, and caches
    /// its data while the cache holds fewer than its maximum number of chunks.
    pub fn record_chunk(
        &mut self,
        offset: u64,
        chunk_data: Vec<u8>,
        node_count: usize,
        processing_time_ms: u64,
        error_count: usize,
    ) -> (r: ProcessedChunkInfo)
        ensures
            r == (ProcessedChunkInfo {
                offset,
                size: chunk_data@.len() as usize,
                node_count,
                processing_time_ms,
                error_count,
                checksum: checksum(chunk_data@),
            }),
            final(self).processed() == upsert(old(self).processed(), offset, r),
            old(self).cached().len() < old(self).max_cache_size_spec() ==> final(self).cached()
                == upsert(old(self).cached(), offset, chunk_data@),
            old(self).cached().len() >= old(self).max_cache_size_spec() ==> final(self).cached()
                == old(self).cached(),
            final(self).chunk_size_spec() == old(self).chunk_size_spec(),
            final(self).overlap_size_spec() == old(self).overlap_size_spec(),
            final(self).max_cache_size_spec() == old(self).max_cache_size_spec(),
    {
        proof {
            use_type_invariant(&*self);
        }
        let info = ProcessedChunkInfo {
            offset,
            size: chunk_data.len(),
            node_count,
            processing_time_ms,
            error_count,
            checksum: self.calculate_checksum(chunk_data.as_slice()),
        };
        let ghost old_processed = self.processed_chunks@;
        let ghost old_cache = self.chunk_cache@;
        let mut processed = Vec::new();
        std::mem::swap(&mut processed, &mut self.processed_chunks);
        insert_sorted(&mut processed, offset, info);
        self.processed_chunks = processed;
        if self.chunk_cache.len() < self.max_cache_size {
            let mut cache = Vec::new();
            std::mem::swap(&mut cache, &mut self.chunk_cache);
            let ghost c0 = cache@;
            let ghost data_vec: Vec<u8> = chunk_data;
            insert_sorted(&mut cache, offset, chunk_data);
            proof {
                lemma_cache_upsert(c0, offset, data_vec);
            }
            self.chunk_cache = cache;
        }
        info
    }
}

/// Inserts `value` at `key` into entries sorted by strictly increasing key, replacing the
/// value of an equal key.
fn insert_sorted<V>(entries: &mut Vec<(u64, V)>, key: u64, value: V)
    requires
        strictly_sorted(keys_of(old(entries)@)),
    ensures
        strictly_sorted(keys_of(final(entries)@)),
        final(entries)@ == upsert(old(entries)@, key, value),
{
    let n = entries.len();
    let mut i: usize = 0;
    while i < n && entries[i].0 < key
        invariant
            n == entries@.len(),
            entries@ == old(entries)@,
            i <= n,
            forall|j: int| 0 <= j < i ==> entries@[j].0 < key,
        decreases n - i,
    {
        i += 1;
    }
    let ghost before = entries@;
    proof {
        lemma_upsert_at(before, key, value, i as int);
    }
    if i < n && entries[i].0 == key {
        entries.set(i, (key, value));
        assert(keys_of(entries@) =~= keys_of(before));
    } else {
        entries.insert(i, (key, value));
        assert(entries@ == before.insert(i as int, (key, value)));
        assert forall|a: int, b: int| 0 <= a < b < keys_of(entries@).len() implies keys_of(
            entries@,
        )[a] < keys_of(entries@)[b] by {
            if b < i {
                assert(keys_of(before)[a] < keys_of(before)[b]);
            } else if b == i {
                assert(before[a].0 < key);
            } else if a < i {
                assert(keys_of(before)[a] < keys_of(before)[b - 1]);
            } else if a == i {
                assert(before[i as int].0 > key);
                if b - 1 > i {
                    assert(keys_of(before)[i as int] < keys_of(before)[b - 1]);
                }
            } else {
                assert(keys_of(before)[a - 1] < keys_of(before)[b - 1]);
            }
        }
    }
}

/// Where `upsert` puts the entry: at the first position whose key is not below `key`.
proof fn lemma_upsert_at<V>(s: Seq<(u64, V)>, key: u64, value: V, i: int)
    requires
        strictly_sorted(keys_of(s)),
        0 <= i <= s.len(),
        forall|j: int| 0 <= j < i ==> s[j].0 < key,
        i < s.len() ==> s[i].0 >= key,
    ensures
        i < s.len() && s[i].0 == key ==> upsert(s, key, value) == s.update(i, (key, value)),
        !(i < s.len() && s[i].0 == key) ==> upsert(s, key, value) == s.insert(i, (key, value)),
        i < s.len() && s[i].0 != key ==> s[i].0 > key,
    decreases i,
{
    if i > 0 {
        let t = s.drop_first();
        assert(strictly_sorted(keys_of(t))) by {
            assert forall|a: int, b: int| 0 <= a < b < keys_of(t).len() implies keys_of(t)[a]
                < keys_of(t)[b] by {
                assert(keys_of(s)[a + 1] < keys_of(s)[b + 1]);
            }
        }
        assert forall|j: int| 0 <= j < i - 1 implies t[j].0 < key by {
            assert(s[j + 1].0 < key);
        }
        lemma_upsert_at(t, key, value, i - 1);
        assert(s[0].0 < key);
        if i < s.len() && s[i].0 == key {
            assert(seq![s[0]] + t.update(i - 1, (key, value)) =~= s.update(i, (key, value)));
        } else {
            assert(seq![s[0]] + t.insert(i - 1, (key, value)) =~= s.insert(i, (key, value)));
        }
    } else {
        if s.len() == 0 {
            assert(seq![(key, value)] =~= s.insert(0, (key, value)));
        } else if s[0].0 == key {
            assert(seq![(key, value)] + s.drop_first() =~= s.update(0, (key, value)));
        } else {
            assert(seq![(key, value)] + s =~= s.insert(0, (key, value)));
        }
    }
}

/// The cache view of an upsert is the upsert of the cache view.
proof fn lemma_cache_upsert(s: Seq<(u64, Vec<u8>)>, key: u64, value: Vec<u8>)
    ensures
        cache_entries(upsert(s, key, value)) == upsert(cache_entries(s), key, value@),
    decreases s.len(),
{
    if s.len() > 0 {
        lemma_cache_upsert(s.drop_first(), key, value);
        assert(cache_entries(s.drop_first()) =~= cache_entries(s).drop_first());
        if s[0].0 < key {
            assert(cache_entries(seq![s[0]] + upsert(s.drop_first(), key, value)) =~= seq![
                cache_entries(s)[0],
            ] + cache_entries(upsert(s.drop_first(), key, value)));
        } else if s[0].0 == key {
            assert(cache_entries(seq![(key, value)] + s.drop_first()) =~= seq![(key, value@)]
                + cache_entries(s).drop_first());
        } else {
            assert(cache_entries(seq![(key, value)] + s) =~= seq![(key, value@)] + cache_entries(
                s,
            ));
        }
    } else {
        assert(cache_entries(seq![(key, value)]) =~= seq![(key, value@)]);
    }
}

/// A chunk processor with the default settings: 64 KiB chunks with 4 KiB of overlap, and
/// at most 100 chunks cached.
pub fn create_simple_chunk_processor() -> (r: ChunkProcessor)
    ensures
        r.chunk_size_spec() == 65536,
        r.overlap_size_spec() == 4096,
        r.max_cache_size_spec() == 100,
        r.processed().len() == 0,
        r.cached().len() == 0,
{
    ChunkProcessor {
        chunk_size: 65536,
        overlap_size: 4096,
        processed_chunks: Vec::new(),
        chunk_cache: Vec::new(),
        max_cache_size: 100,
    }
}

/// Storing a value at a key leaves that key with that value.
proof fn lemma_upsert_holds<V>(s: Seq<(u64, V)>, key: u64, value: V)
    ensures
        exists|i: int| 0 <= i < upsert(s, key, value).len() && upsert(s, key, value)[i] == (key, value),
    decreases s.len(),
{
    if s.len() == 0 {
        assert(upsert(s, key, value)[0] == (key, value));
    } else if s[0].0 < key {
        lemma_upsert_holds(s.drop_first(), key, value);
        let t = upsert(s.drop_first(), key, value);
        let i = choose|i: int| 0 <= i < t.len() && t[i] == (key, value);
        assert(upsert(s, key, value)[i + 1] == t[i]);
    } else {
        assert(upsert(s, key, value)[0] == (key, value));
    }
}

/// A chunk recorded while the cache has room verifies afterwards: [`ChunkProcessor::verify_chunk`]
/// at its offset gives `Ok(true)`, as its cached data has the checksum recorded for it.
/// `after` is the processor as [`ChunkProcessor::record_chunk`] leaves `before`.
pub proof fn lemma_recorded_chunk_verifies(
    before: ChunkProcessor,
    after: ChunkProcessor,
    offset: u64,
    data: Seq<u8>,
    info: ProcessedChunkInfo,
)
    requires
        info.checksum == checksum(data),
        after.processed() == upsert(before.processed(), offset, info),
        after.cached() == upsert(before.cached(), offset, data),
    ensures
        chunk_verifies(after, offset),
{
    lemma_upsert_holds(before.processed(), offset, info);
    lemma_upsert_holds(before.cached(), offset, data);
    let i = choose|i: int| 0 <= i < after.cached().len() && after.cached()[i] == (offset, data);
    let j = choose|j: int| 0 <= j < after.processed().len() && after.processed()[j] == (offset, info);
    assert(after.cached()[i].0 == offset && after.processed()[j].0 == offset);
}


/// Storing a value at one key keeps every entry at another key.
proof fn lemma_upsert_keeps<V>(s: Seq<(u64, V)>, key: u64, value: V, i: int)
    requires
        0 <= i < s.len(),
        s[i].0 != key,
    ensures
        exists|j: int| 0 <= j < upsert(s, key, value).len() && upsert(s, key, value)[j] == s[i],
    decreases s.len(),
{
    let u = upsert(s, key, value);
    if s[0].0 < key {
        if i == 0 {
            assert(u[0] == s[0]);
        } else {
            let t = s.drop_first();
            assert(t[i - 1] == s[i]);
            lemma_upsert_keeps(t, key, value, i - 1);
            let tu = upsert(t, key, value);
            let j = choose|j: int| 0 <= j < tu.len() && tu[j] == s[i];
            assert(u[j + 1] == tu[j]);
        }
    } else if s[0].0 == key {
        assert(i > 0);
        assert(u[i] == s.drop_first()[i - 1]);
    } else {
        assert(u[i + 1] == s[i]);
    }
}

/// A chunk that verifies still verifies after a chunk at another offset is recorded, and
/// after the cache is trimmed, as long as its data is still cached: `after` is the
/// processor as [`ChunkProcessor::record_chunk`] at `other` or [`ChunkProcessor::cleanup_cache`]
/// leaves `before`.
pub proof fn lemma_verified_chunk_stays_verified(
    before: ChunkProcessor,
    after: ChunkProcessor,
    offset: u64,
    other: u64,
    data: Seq<u8>,
    info: ProcessedChunkInfo,
    kept_from: int,
)
    requires
        chunk_verifies(before, offset),
        strictly_sorted(keys_of(before.cached())),
        (other != offset && after.processed() == upsert(before.processed(), other, info) && (
        after.cached() == upsert(before.cached(), other, data) || after.cached() == before.cached()))
            || (0 <= kept_from <= before.cached().len() && after.processed() == before.processed()
            && after.cached() == before.cached().subrange(kept_from, before.cached().len() as int)
            && exists|k: int| 0 <= k < after.cached().len() && after.cached()[k].0 == offset),
    ensures
        chunk_verifies(after, offset),
{
    let (i, j) = choose|i: int, j: int|
        0 <= i < before.cached().len() && 0 <= j < before.processed().len()
            && before.cached()[i].0 == offset && before.processed()[j].0 == offset && checksum(
            before.cached()[i].1,
        ) == before.processed()[j].1.checksum;
    if other != offset && after.processed() == upsert(before.processed(), other, info) && (
    after.cached() == upsert(before.cached(), other, data) || after.cached() == before.cached()) {
        lemma_upsert_keeps(before.processed(), other, info, j);
        let jj = choose|jj: int|
            0 <= jj < after.processed().len() && after.processed()[jj] == before.processed()[j];
        if after.cached() == upsert(before.cached(), other, data) {
            lemma_upsert_keeps(before.cached(), other, data, i);
            let ii = choose|ii: int|
                0 <= ii < after.cached().len() && after.cached()[ii] == before.cached()[i];
            assert(after.cached()[ii].0 == offset && after.processed()[jj].0 == offset);
        } else {
            assert(after.cached()[i].0 == offset && after.processed()[jj].0 == offset);
        }
    } else {
        let k = choose|k: int| 0 <= k < after.cached().len() && after.cached()[k].0 == offset;
        let n = before.cached().len() as int;
        assert(after.cached()[k] == before.cached()[k + kept_from]);
        if k + kept_from != i {
            if k + kept_from < i {
                assert(keys_of(before.cached())[k + kept_from] < keys_of(before.cached())[i]);
            } else {
                assert(keys_of(before.cached())[i] < keys_of(before.cached())[k + kept_from]);
            }
        }
        assert(after.cached()[k].0 == offset && after.processed()[j].0 == offset);
    }
}
} // verus!
