//! Content classification and run-length compression of stream data.

pub mod lzw;

use crate::byteseq::{bytes_equal_at, copy_range, occurs_at};
use crate::compression::lzw::{encode_lzw_pdf, lzw_stream};
use crate::text::{append_decimal, decimal};
use vstd::prelude::*;

verus! {

/// How hard to compress.
#[derive(Debug, Clone, Copy, PartialEq, Eq, Structural)]
pub enum CompressionLevel {
    /// No compression at all.
    Uncompressed,
    Fast,
    Balanced,
    Best,
    Adaptive,
}

/// A compression method.
#[derive(Debug, Clone, Copy, PartialEq, Eq, Hash, Structural)]
pub enum CompressionAlgorithm {
    Flate,
    LZW,
    RunLength,
    CCITT,
    JBIG2,
    DCT,
    JPX,
    Custom(u8),
}

/// What stream data looks like.
#[derive(Debug, Clone, Copy, PartialEq, Eq, Hash, Structural)]
pub enum ContentType {
    Text,
    Image,
    Vector,
    Binary,
    Structured,
    Unknown,
}

/// Classifies stream data by signatures and marker frequencies.
pub struct ContentAnalyzer {
    text_patterns: Vec<Vec<u8>>,
    image_signatures: Vec<Vec<u8>>,
}

/// Operators of text objects.
pub open spec fn text_patterns() -> Seq<Seq<u8>> {
    seq![seq![0x42u8, 0x54], seq![0x45u8, 0x54], seq![0x54u8, 0x66], seq![0x54u8, 0x4A], seq![0x54u8, 0x6A]]
}

/// Signatures of JPEG, PNG and GIF images.
pub open spec fn image_signatures() -> Seq<Seq<u8>> {
    seq![
        seq![0xFFu8, 0xD8, 0xFF],
        seq![0x89u8, 0x50, 0x4E, 0x47, 0x0D, 0x0A, 0x1A, 0x0A],
        seq![0x47u8, 0x49, 0x46, 0x38, 0x37, 0x61],
        seq![0x47u8, 0x49, 0x46, 0x38, 0x39, 0x61],
    ]
}

/// Path-construction and painting operators, each followed by a space.
pub open spec fn vector_operators() -> Seq<Seq<u8>> {
    seq![
        seq![0x6Du8, 0x20],
        seq![0x6Cu8, 0x20],
        seq![0x63u8, 0x20],
        seq![0x76u8, 0x20],
        seq![0x79u8, 0x20],
        seq![0x68u8, 0x20],
        seq![0x72u8, 0x65, 0x20],
        seq![0x53u8, 0x20],
        seq![0x73u8, 0x20],
        seq![0x66u8, 0x20],
        seq![0x46u8, 0x20],
        seq![0x42u8, 0x20],
    ]
}

/// Markers of PDF object syntax: `<<`, `>>`, `[`, `]`, `/`, `obj`, `endobj`.
pub open spec fn structure_markers() -> Seq<Seq<u8>> {
    seq![
        seq![0x3Cu8, 0x3C],
        seq![0x3Eu8, 0x3E],
        seq![0x5Bu8],
        seq![0x5Du8],
        seq![0x2Fu8],
        seq![0x6Fu8, 0x62, 0x6A],
        seq![0x65u8, 0x6E, 0x64, 0x6F, 0x62, 0x6A],
    ]
}

/// Number of positions below `k` at which `needle` occurs in `hay`.
pub open spec fn windows_below(hay: Seq<u8>, needle: Seq<u8>, k: int) -> nat
    decreases k,
{
    if k <= 0 {
        0
    } else {
        windows_below(hay, needle, k - 1) + if occurs_at(hay, needle, k - 1) {
            1nat
        } else {
            0nat
        }
    }
}

/// Number of positions at which `needle` occurs in `hay`, overlapping ones included.
pub open spec fn window_count(hay: Seq<u8>, needle: Seq<u8>) -> nat {
    windows_below(hay, needle, hay.len() as int)
}

/// Total number of occurrences of the patterns `ps[..k]`.
pub open spec fn total_windows(hay: Seq<u8>, ps: Seq<Seq<u8>>, k: int) -> nat
    decreases k,
{
    if k <= 0 {
        0
    } else {
        total_windows(hay, ps, k - 1) + window_count(hay, ps[k - 1])
    }
}

/// Number of ASCII bytes among the first `k` bytes.
pub open spec fn ascii_below(data: Seq<u8>, k: int) -> nat
    decreases k,
{
    if k <= 0 {
        0
    } else {
        ascii_below(data, k - 1) + if data[k - 1] < 128 {
            1nat
        } else {
            0nat
        }
    }
}

/// The number of leading bytes examined for the ASCII ratio.
pub open spec fn sample_len(data: Seq<u8>) -> int {
    if data.len() < 1000 {
        data.len() as int
    } else {
        1000
    }
}

/// The data starts with an image signature.
pub open spec fn looks_like_image(data: Seq<u8>) -> bool {
    exists|k: int| 0 <= k < image_signatures().len() && occurs_at(data, image_signatures()[k], 0)
}

/// More than four fifths of the first thousand bytes are ASCII, or a text operator occurs.
pub open spec fn looks_like_text(data: Seq<u8>) -> bool {
    data.len() > 0 && (5 * ascii_below(data, sample_len(data)) > 4 * sample_len(data) || exists|
        k: int,
        j: int,
    | 0 <= k < text_patterns().len() && occurs_at(data, text_patterns()[k], j))
}

/// The classification of stream data.
pub open spec fn content_type_of(data: Seq<u8>) -> ContentType {
    if looks_like_image(data) {
        ContentType::Image
    } else if looks_like_text(data) {
        ContentType::Text
    } else if total_windows(data, vector_operators(), 12) > data.len() / 100 {
        ContentType::Vector
    } else if total_windows(data, structure_markers(), 7) > data.len() / 50 {
        ContentType::Structured
    } else {
        ContentType::Binary
    }
}

/// Stream data is classified as an image exactly when it starts with a JPEG (`FF D8 FF`),
/// PNG (`89 50 4E 47 0D 0A 1A 0A`), GIF87a or GIF89a signature.
pub proof fn lemma_image_signatures_classify(data: Seq<u8>)
    ensures
        (content_type_of(data) == ContentType::Image) == (occurs_at(data, seq![0xFFu8, 0xD8, 0xFF], 0)
            || occurs_at(data, seq![0x89u8, 0x50, 0x4E, 0x47, 0x0D, 0x0A, 0x1A, 0x0A], 0)
            || occurs_at(data, seq![0x47u8, 0x49, 0x46, 0x38, 0x37, 0x61], 0) || occurs_at(
            data,
            seq![0x47u8, 0x49, 0x46, 0x38, 0x39, 0x61],
            0,
        )),
{
    let sigs = image_signatures();
    let jpeg = seq![0xFFu8, 0xD8, 0xFF];
    let png = seq![0x89u8, 0x50, 0x4E, 0x47, 0x0D, 0x0A, 0x1A, 0x0A];
    let gif7 = seq![0x47u8, 0x49, 0x46, 0x38, 0x37, 0x61];
    let gif9 = seq![0x47u8, 0x49, 0x46, 0x38, 0x39, 0x61];
    assert(sigs[0] == jpeg && sigs[1] == png && sigs[2] == gif7 && sigs[3] == gif9);
    if occurs_at(data, jpeg, 0) {
        assert(occurs_at(data, sigs[0], 0));
    }
    if occurs_at(data, png, 0) {
        assert(occurs_at(data, sigs[1], 0));
    }
    if occurs_at(data, gif7, 0) {
        assert(occurs_at(data, sigs[2], 0));
    }
    if occurs_at(data, gif9, 0) {
        assert(occurs_at(data, sigs[3], 0));
    }
    if looks_like_image(data) {
        let k = choose|k: int| 0 <= k < sigs.len() && occurs_at(data, sigs[k], 0);
        assert(k == 0 || k == 1 || k == 2 || k == 3);
    }
}

/// Builds a vector of byte strings.
fn byte_strings(parts: &[&[u8]]) -> (r: Vec<Vec<u8>>)
    ensures
        r@.len() == parts@.len(),
        forall|i: int| 0 <= i < parts@.len() ==> (#[trigger] r@[i])@ == parts@[i]@,
{
    let mut out: Vec<Vec<u8>> = Vec::new();
    let mut i: usize = 0;
    while i < parts.len()
        invariant
            i <= parts@.len(),
            out@.len() == i,
            forall|j: int| 0 <= j < i ==> (#[trigger] out@[j])@ == parts@[j]@,
        decreases parts@.len() - i,
    {
        out.push(copy_range(parts[i], 0, parts[i].len()));
        assert(parts@[i as int]@.subrange(0, parts@[i as int]@.len() as int) =~= parts@[i as int]@);
        i += 1;
    }
    out
}

/// Number of positions at which `needle` occurs in `data`.
pub fn count_windows(data: &[u8], needle: &[u8]) -> (r: u64)
    requires
        needle@.len() > 0,
    ensures
        r == window_count(data@, needle@),
{
    let n = data.len();
    let mut count: u64 = 0;
    let mut i: usize = 0;
    while i < n
        invariant
            n == data@.len(),
            i <= n,
            count == windows_below(data@, needle@, i as int),
            count <= i,
        decreases n - i,
    {
        if bytes_equal_at(data, i, needle) {
            count += 1;
        }
        i += 1;
    }
    count
}

impl ContentAnalyzer {
    #[verifier::type_invariant]
    spec fn holds_patterns(self) -> bool {
        &&& self.text_patterns@.map_values(|p: Vec<u8>| p@) == text_patterns()
        &&& self.image_signatures@.map_values(|p: Vec<u8>| p@) == image_signatures()
    }

    /// The text-object operators the analyzer looks for.
    pub closed spec fn text_markers(&self) -> Seq<Seq<u8>> {
        self.text_patterns@.map_values(|p: Vec<u8>| p@)
    }

    /// The image-format signatures the analyzer looks for.
    pub closed spec fn image_markers(&self) -> Seq<Seq<u8>> {
        self.image_signatures@.map_values(|p: Vec<u8>| p@)
    }

    /// An analyzer holding the text operators `BT`, `ET`, `Tf`, `TJ`, `Tj` and the JPEG,
    /// PNG and two GIF signatures.
    pub fn new() -> (r: Self)
        ensures
            r.text_markers() == text_patterns(),
            r.image_markers() == image_signatures(),
    {
        let text = byte_strings(&[&[0x42u8, 0x54], &[0x45u8, 0x54], &[0x54u8, 0x66], &[0x54u8, 0x4A], &[0x54u8, 0x6A]]);
        let images = byte_strings(
            &[
                &[0xFFu8, 0xD8, 0xFF],
                &[0x89u8, 0x50, 0x4E, 0x47, 0x0D, 0x0A, 0x1A, 0x0A],
                &[0x47u8, 0x49, 0x46, 0x38, 0x37, 0x61],
                &[0x47u8, 0x49, 0x46, 0x38, 0x39, 0x61],
            ],
        );
        assert(text@.map_values(|p: Vec<u8>| p@) =~= text_patterns());
        assert(images@.map_values(|p: Vec<u8>| p@) =~= image_signatures());
        ContentAnalyzer { text_patterns: text, image_signatures: images }
    }

    /// Classifies `data`: image signatures first, then text, path operators, object syntax,
    /// and otherwise binary.
    pub fn analyze_content(&self, data: &[u8]) -> (r: ContentType)
        ensures
            r == content_type_of(data@),
    {
        if self.is_image_content(data) {
            ContentType::Image
        } else if self.is_text_content(data) {
            ContentType::Text
        } else if is_vector_content(data) {
            ContentType::Vector
        } else if is_structured_content(data) {
            ContentType::Structured
        } else {
            ContentType::Binary
        }
    }

    fn is_image_content(&self, data: &[u8]) -> (r: bool)
        ensures
            r == looks_like_image(data@),
    {
        proof {
            use_type_invariant(self);
        }
        let n = self.image_signatures.len();
        let mut k: usize = 0;
        while k < n
            invariant
                n == image_signatures().len(),
                self.image_signatures@.map_values(|p: Vec<u8>| p@) == image_signatures(),
                k <= n,
                forall|j: int| 0 <= j < k ==> !occurs_at(data@, image_signatures()[j], 0),
            decreases n - k,
        {
            assert(self.image_signatures@[k as int]@ == image_signatures()[k as int]);
            if bytes_equal_at(data, 0, self.image_signatures[k].as_slice()) {
                return true;
            }
            k += 1;
        }
        false
    }

    fn is_text_content(&self, data: &[u8]) -> (r: bool)
        ensures
            r == looks_like_text(data@),
    {
        proof {
            use_type_invariant(self);
        }
        if data.len() == 0 {
            return false;
        }
        let m: usize = if data.len() < 1000 {
            data.len()
        } else {
            1000
        };
        let mut ascii: usize = 0;
        let mut i: usize = 0;
        while i < m
            invariant
                m == sample_len(data@),
                m <= data@.len(),
                i <= m,
                ascii == ascii_below(data@, i as int),
                ascii <= i,
            decreases m - i,
        {
            if data[i] < 128 {
                ascii += 1;
            }
            i += 1;
        }
        if 5 * (ascii as u64) > 4 * (m as u64) {
            return true;
        }
        let n = self.text_patterns.len();
        let mut k: usize = 0;
        while k < n
            invariant
                n == text_patterns().len(),
                self.text_patterns@.map_values(|p: Vec<u8>| p@) == text_patterns(),
                k <= n,
                forall|kk: int, j: int| 0 <= kk < k ==> !occurs_at(data@, text_patterns()[kk], j),
            decreases n - k,
        {
            assert(self.text_patterns@[k as int]@ == text_patterns()[k as int]);
            if count_windows(data, self.text_patterns[k].as_slice()) > 0 {
                proof {
                    lemma_window_witness(data@, text_patterns()[k as int], data@.len() as int);
                }
                return true;
            }
            proof {
                assert forall|j: int| !occurs_at(data@, text_patterns()[k as int], j) by {
                    if occurs_at(data@, text_patterns()[k as int], j) {
                        assert(text_patterns()[k as int].len() > 0);
                        lemma_window_positive(data@, text_patterns()[k as int], j, data@.len() as int);
                    }
                }
            }
            k += 1;
        }
        false
    }
}

/// A positive count has a position where the needle occurs.
proof fn lemma_window_witness(hay: Seq<u8>, needle: Seq<u8>, k: int)
    requires
        windows_below(hay, needle, k) > 0,
    ensures
        exists|j: int| occurs_at(hay, needle, j),
    decreases k,
{
    if k > 0 && !occurs_at(hay, needle, k - 1) {
        lemma_window_witness(hay, needle, k - 1);
    }
}

/// An occurrence below `k` makes the count positive.
proof fn lemma_window_positive(hay: Seq<u8>, needle: Seq<u8>, j: int, k: int)
    requires
        occurs_at(hay, needle, j),
        needle.len() > 0,
        k == hay.len(),
    ensures
        windows_below(hay, needle, k) > 0,
{
    lemma_windows_below_monotone(hay, needle, j + 1, k);
}

proof fn lemma_windows_below_monotone(hay: Seq<u8>, needle: Seq<u8>, a: int, b: int)
    requires
        0 <= a <= b,
    ensures
        windows_below(hay, needle, a) <= windows_below(hay, needle, b),
    decreases b - a,
{
    if a < b {
        lemma_windows_below_monotone(hay, needle, a, b - 1);
    }
}

/// The slices hold the patterns `ps`, none of them empty.
spec fn parts_match(parts: Seq<&[u8]>, ps: Seq<Seq<u8>>) -> bool {
    &&& parts.len() == ps.len()
    &&& forall|i: int| 0 <= i < ps.len() ==> (#[trigger] parts[i])@ == ps[i] && ps[i].len() > 0
}

/// Total occurrences of the patterns in `parts`.
fn total_count(data: &[u8], parts: &[&[u8]], Ghost(ps): Ghost<Seq<Seq<u8>>>) -> (r: u128)
    requires
        parts_match(parts@, ps),
    ensures
        r == total_windows(data@, ps, ps.len() as int),
{
    let mut total: u128 = 0;
    let mut k: usize = 0;
    while k < parts.len()
        invariant
            parts_match(parts@, ps),
            k <= ps.len(),
            total == total_windows(data@, ps, k as int),
            total <= k * 0x1_0000_0000_0000_0000,
        decreases ps.len() - k,
    {
        assert(parts@[k as int]@ == ps[k as int]);
        let c = count_windows(data, parts[k]);
        total = total + c as u128;
        k += 1;
    }
    total
}

fn is_vector_content(data: &[u8]) -> (r: bool)
    ensures
        r == (total_windows(data@, vector_operators(), 12) > data@.len() / 100),
{
    let parts: [&[u8]; 12] = [
        &[0x6Du8, 0x20],
        &[0x6Cu8, 0x20],
        &[0x63u8, 0x20],
        &[0x76u8, 0x20],
        &[0x79u8, 0x20],
        &[0x68u8, 0x20],
        &[0x72u8, 0x65, 0x20],
        &[0x53u8, 0x20],
        &[0x73u8, 0x20],
        &[0x66u8, 0x20],
        &[0x46u8, 0x20],
        &[0x42u8, 0x20],
    ];
    assert(parts@[0]@ =~= vector_operators()[0]);
    assert(parts@[1]@ =~= vector_operators()[1]);
    assert(parts@[2]@ =~= vector_operators()[2]);
    assert(parts@[3]@ =~= vector_operators()[3]);
    assert(parts@[4]@ =~= vector_operators()[4]);
    assert(parts@[5]@ =~= vector_operators()[5]);
    assert(parts@[6]@ =~= vector_operators()[6]);
    assert(parts@[7]@ =~= vector_operators()[7]);
    assert(parts@[8]@ =~= vector_operators()[8]);
    assert(parts@[9]@ =~= vector_operators()[9]);
    assert(parts@[10]@ =~= vector_operators()[10]);
    assert(parts@[11]@ =~= vector_operators()[11]);
    let total = total_count(data, &parts, Ghost(vector_operators()));
    total > (data.len() / 100) as u128
}

fn is_structured_content(data: &[u8]) -> (r: bool)
    ensures
        r == (total_windows(data@, structure_markers(), 7) > data@.len() / 50),
{
    let parts: [&[u8]; 7] = [
        &[0x3Cu8, 0x3C],
        &[0x3Eu8, 0x3E],
        &[0x5Bu8],
        &[0x5Du8],
        &[0x2Fu8],
        &[0x6Fu8, 0x62, 0x6A],
        &[0x65u8, 0x6E, 0x64, 0x6F, 0x62, 0x6A],
    ];
    assert(parts@[0]@ =~= structure_markers()[0]);
    assert(parts@[1]@ =~= structure_markers()[1]);
    assert(parts@[2]@ =~= structure_markers()[2]);
    assert(parts@[3]@ =~= structure_markers()[3]);
    assert(parts@[4]@ =~= structure_markers()[4]);
    assert(parts@[5]@ =~= structure_markers()[5]);
    assert(parts@[6]@ =~= structure_markers()[6]);
    let total = total_count(data, &parts, Ghost(structure_markers()));
    total > (data.len() / 50) as u128
}

/// The end of the run of bytes equal to `data[i]` that starts at `i`, scanning from `j` and
/// stopping after 128 bytes.
pub open spec fn run_end(data: Seq<u8>, i: int, j: int) -> int
    decreases data.len() - j,
{
    if 0 <= i < j < data.len() && j - i < 128 && data[j] == data[i] {
        run_end(data, i, j + 1)
    } else {
        j
    }
}

/// The end of the literal stretch that starts at `i`, scanning from `k`: it stops before a
/// pair of equal bytes, at the end of the data, or after 128 bytes.
pub open spec fn literal_end(data: Seq<u8>, i: int, k: int) -> int
    decreases data.len() - k,
{
    if i < k < data.len() && k - i < 128 && !(k + 1 < data.len() && data[k] == data[k + 1]) {
        literal_end(data, i, k + 1)
    } else {
        k
    }
}

/// The run end lies between the scan start and 128 bytes after `i`.
pub proof fn lemma_run_end_bounds(data: Seq<u8>, i: int, j: int)
    requires
        0 <= i < j <= data.len(),
        j - i <= 128,
    ensures
        j <= run_end(data, i, j) <= data.len(),
        run_end(data, i, j) - i <= 128,
    decreases data.len() - j,
{
    if j < data.len() && j - i < 128 && data[j] == data[i] {
        lemma_run_end_bounds(data, i, j + 1);
    }
}

/// The literal end lies between the scan start and 128 bytes after `i`.
pub proof fn lemma_literal_end_bounds(data: Seq<u8>, i: int, k: int)
    requires
        0 <= i < k <= data.len(),
        k - i <= 128,
    ensures
        k <= literal_end(data, i, k) <= data.len(),
        literal_end(data, i, k) - i <= 128,
    decreases data.len() - k,
{
    if k < data.len() && k - i < 128 && !(k + 1 < data.len() && data[k] == data[k + 1]) {
        lemma_literal_end_bounds(data, i, k + 1);
    }
}

/// The run-length encoding of `data[i..]`: runs of two or more equal bytes become a count
/// byte `257 - n` and the byte, other stretches a count byte `n - 1` and the bytes, and the
/// end is marked by 128.
pub open spec fn rle_from(data: Seq<u8>, i: int) -> Seq<u8>
    decreases data.len() - i,
{
    if i < 0 || i >= data.len() {
        seq![128u8]
    } else {
        let r = run_end(data, i, i + 1) - i;
        proof {
            lemma_run_end_bounds(data, i, i + 1);
        }
        if r > 1 {
            seq![(257 - r) as u8, data[i]] + rle_from(data, i + r)
        } else {
            let e = literal_end(data, i, i + 1);
            proof {
                lemma_literal_end_bounds(data, i, i + 1);
            }
            seq![(e - i - 1) as u8] + data.subrange(i, e) + rle_from(data, e)
        }
    }
}

/// What `RunLengthDecode` gives for `b`: a count byte below 128 copies that many bytes plus
/// one, a count byte above 128 repeats the next byte `257 - count` times, and 128 ends the
/// data.
pub open spec fn rle_decode(b: Seq<u8>) -> Seq<u8>
    decreases b.len(),
{
    if b.len() == 0 || b[0] == 128 {
        seq![]
    } else if b[0] < 128 {
        let l = b[0] + 1;
        if b.len() < 1 + l {
            b.subrange(1, b.len() as int)
        } else {
            b.subrange(1, 1 + l) + rle_decode(b.subrange(1 + l, b.len() as int))
        }
    } else if b.len() < 2 {
        seq![]
    } else {
        Seq::new((257 - b[0]) as nat, |k: int| b[1]) + rle_decode(b.subrange(2, b.len() as int))
    }
}

/// The bytes from `i` up to the run end all equal `data[i]`.
proof fn lemma_run_end_equal(data: Seq<u8>, i: int, j: int)
    requires
        0 <= i < j <= data.len(),
        forall|m: int| i <= m < j ==> data[m] == data[i],
    ensures
        forall|m: int| i <= m < run_end(data, i, j) ==> data[m] == data[i],
    decreases data.len() - j,
{
    if j < data.len() && j - i < 128 && data[j] == data[i] {
        lemma_run_end_equal(data, i, j + 1);
    }
}

/// Decoding the encoding of `data[i..]` gives `data[i..]` back.
pub proof fn lemma_rle_roundtrip_from(data: Seq<u8>, i: int)
    requires
        0 <= i <= data.len(),
    ensures
        rle_decode(rle_from(data, i)) == data.subrange(i, data.len() as int),
    decreases data.len() - i,
{
    if i == data.len() {
        assert(rle_decode(seq![128u8]) =~= Seq::<u8>::empty());
        assert(data.subrange(i, data.len() as int) =~= Seq::<u8>::empty());
    } else {
        lemma_run_end_bounds(data, i, i + 1);
        let r = run_end(data, i, i + 1) - i;
        if r > 1 {
            lemma_run_end_equal(data, i, i + 1);
            lemma_rle_roundtrip_from(data, i + r);
            let rest = rle_from(data, i + r);
            let b = seq![(257 - r) as u8, data[i]] + rest;
            assert(b[0] == (257 - r) as u8);
            assert(b.subrange(2, b.len() as int) =~= rest);
            assert(Seq::new(r as nat, |k: int| b[1]) =~= data.subrange(i, i + r));
            assert(data.subrange(i, i + r) + data.subrange(i + r, data.len() as int) =~= data.subrange(
                i,
                data.len() as int,
            ));
        } else {
            lemma_literal_end_bounds(data, i, i + 1);
            let e = literal_end(data, i, i + 1);
            lemma_rle_roundtrip_from(data, e);
            let rest = rle_from(data, e);
            let b = seq![(e - i - 1) as u8] + data.subrange(i, e) + rest;
            assert(b[0] == (e - i - 1) as u8);
            assert(b.subrange(1, 1 + (e - i)) =~= data.subrange(i, e));
            assert(b.subrange(1 + (e - i), b.len() as int) =~= rest);
            assert(data.subrange(i, e) + data.subrange(e, data.len() as int) =~= data.subrange(
                i,
                data.len() as int,
            ));
        }
    }
}

/// Decoding the run-length encoding of any data gives the data back.
pub proof fn lemma_rle_roundtrip(data: Seq<u8>)
    ensures
        rle_decode(rle_from(data, 0)) == data,
{
    lemma_rle_roundtrip_from(data, 0);
    assert(data.subrange(0, data.len() as int) =~= data);
}

/// Run-length encodes `data` in the `RunLengthDecode` format, ending with the end marker.
pub fn compress_run_length(data: &[u8]) -> (r: Vec<u8>)
    ensures
        r@ == rle_from(data@, 0),
{
    let n = data.len();
    let mut compressed: Vec<u8> = Vec::new();
    let mut i: usize = 0;
    while i < n
        invariant
            n == data@.len(),
            i <= n,
            compressed@ + rle_from(data@, i as int) == rle_from(data@, 0),
        decreases n - i,
    {
        let current_byte = data[i];
        let mut run_length: usize = 1;
        while i + run_length < n && data[i + run_length] == current_byte && run_length < 128
            invariant
                n == data@.len(),
                i < n,
                current_byte == data@[i as int],
                1 <= run_length <= 128,
                i + run_length <= n,
                run_end(data@, i as int, i + 1) == run_end(data@, i as int, i + run_length),
            decreases n - run_length,
        {
            run_length += 1;
        }
        proof {
            lemma_run_end_bounds(data@, i as int, i + 1);
        }
        assert(run_end(data@, i as int, i + 1) == i + run_length);
        let ghost before = compressed@;
        if run_length > 1 {
            compressed.push((257 - run_length) as u8);
            compressed.push(current_byte);
            assert(compressed@ + rle_from(data@, (i + run_length) as int) =~= before + rle_from(
                data@,
                i as int,
            ));
            i += run_length;
        } else {
            let start_i = i;
            let mut literal_run: usize = 0;
            let mut stop = false;
            while !stop && i < n && literal_run < 128
                invariant
                    n == data@.len(),
                    start_i < n,
                    start_i <= i <= n,
                    literal_run == i - start_i,
                    literal_run <= 128,
                    !(start_i + 1 < n && data@[start_i as int] == data@[start_i + 1]),
                    i > start_i ==> literal_end(data@, start_i as int, start_i + 1) == literal_end(
                        data@,
                        start_i as int,
                        i as int,
                    ),
                    stop ==> i > start_i && i + 1 < n && data@[i as int] == data@[i + 1],
                decreases n - i + if stop {
                    0usize
                } else {
                    1usize
                },
            {
                if i + 1 < n && data[i] == data[i + 1] && literal_run > 0 {
                    stop = true;
                } else {
                    i += 1;
                    literal_run += 1;
                }
            }
            proof {
                lemma_literal_end_bounds(data@, start_i as int, start_i + 1);
            }
            assert(literal_end(data@, start_i as int, start_i + 1) == i);
            compressed.push((literal_run - 1) as u8);
            let mut k = start_i;
            while k < i
                invariant
                    start_i <= k <= i <= n,
                    n == data@.len(),
                    compressed@ == before.push((literal_run - 1) as u8) + data@.subrange(
                        start_i as int,
                        k as int,
                    ),
                decreases i - k,
            {
                compressed.push(data[k]);
                assert(compressed@ =~= before.push((literal_run - 1) as u8) + data@.subrange(
                    start_i as int,
                    k + 1,
                ));
                k += 1;
            }
            assert(compressed@ + rle_from(data@, i as int) =~= before + rle_from(
                data@,
                start_i as int,
            ));
        }
    }
    compressed.push(128);
    assert(compressed@ =~= rle_from(data@, 0));
    compressed
}

/// How often `b` occurs in `s`.
pub open spec fn byte_count(s: Seq<u8>, b: u8) -> nat
    decreases s.len(),
{
    if s.len() == 0 {
        0
    } else {
        byte_count(s.drop_last(), b) + if s.last() == b {
            1nat
        } else {
            0nat
        }
    }
}

/// The data has at least 1000 bytes, and one byte value fills more than 100 of the first
/// 1000.
pub open spec fn repetitive(data: Seq<u8>) -> bool {
    data.len() >= 1000 && exists|b: u8| byte_count(data.take(1000), b) > 100
}

/// Whether the data repeats one byte value often, as [`repetitive`] says.
pub fn has_repetitive_patterns(data: &[u8]) -> (r: bool)
    ensures
        r == repetitive(data@),
{
    if data.len() < 1000 {
        return false;
    }
    let mut counts: Vec<u32> = Vec::new();
    let mut b: usize = 0;
    while b < 256
        invariant
            b <= 256,
            counts@.len() == b,
            forall|k: int| 0 <= k < b ==> counts@[k] == 0,
        decreases 256 - b,
    {
        counts.push(0);
        b += 1;
    }
    let mut i: usize = 0;
    while i < 1000
        invariant
            i <= 1000,
            1000 <= data@.len(),
            counts@.len() == 256,
            forall|k: int| 0 <= k < 256 ==> #[trigger] counts@[k] == byte_count(data@.take(i as int), k as u8),
        decreases 1000 - i,
    {
        let v = data[i];
        assert(data@.take(i + 1).drop_last() =~= data@.take(i as int));
        assert(data@.take(i + 1).last() == v);
        proof {
            lemma_byte_count_bound(data@.take(i as int), v);
            assert(counts@[v as int] == byte_count(data@.take(i as int), (v as int) as u8));
        }
        let c = counts[v as usize];
        counts.set(v as usize, c + 1);
        assert forall|k: int| 0 <= k < 256 implies #[trigger] counts@[k] == byte_count(
            data@.take(i + 1),
            k as u8,
        ) by {
            if k != v as int {
                assert((k as u8) != v);
            }
        }
        i += 1;
    }
    let mut best: u32 = 0;
    let mut k: usize = 0;
    while k < 256
        invariant
            k <= 256,
            counts@.len() == 256,
            forall|j: int| 0 <= j < 256 ==> #[trigger] counts@[j] == byte_count(data@.take(1000), j as u8),
            best <= 100 ==> forall|j: int| 0 <= j < k ==> counts@[j] <= 100,
            best > 100 ==> exists|j: int| 0 <= j < k && counts@[j] > 100,
        decreases 256 - k,
    {
        if counts[k] > best {
            best = counts[k];
        }
        k += 1;
    }
    proof {
        if best > 100 {
            let j = choose|j: int| 0 <= j < 256 && counts@[j] > 100;
            assert(byte_count(data@.take(1000), j as u8) > 100);
        } else {
            assert forall|v: u8| byte_count(data@.take(1000), v) <= 100 by {
                assert(counts@[v as int] == byte_count(data@.take(1000), (v as int) as u8));
            }
        }
    }
    best > 100
}

/// A byte cannot occur more often than the sequence is long.
proof fn lemma_byte_count_bound(s: Seq<u8>, b: u8)
    ensures
        byte_count(s, b) <= s.len(),
    decreases s.len(),
{
    if s.len() > 0 {
        lemma_byte_count_bound(s.drop_last(), b);
    }
}

/// The algorithm that suits each kind of content; unknown content gets LZW when it is
/// repetitive, else Flate.
pub open spec fn optimal_algorithm(data: Seq<u8>, content_type: ContentType) -> CompressionAlgorithm {
    match content_type {
        ContentType::Text => CompressionAlgorithm::Flate,
        ContentType::Image => CompressionAlgorithm::DCT,
        ContentType::Vector => CompressionAlgorithm::Flate,
        ContentType::Binary => CompressionAlgorithm::LZW,
        ContentType::Structured => CompressionAlgorithm::Flate,
        ContentType::Unknown => if repetitive(data) {
            CompressionAlgorithm::LZW
        } else {
            CompressionAlgorithm::Flate
        },
    }
}

/// The algorithm to compress `data` of the given kind with.
pub fn select_optimal_algorithm(data: &[u8], content_type: &ContentType) -> (r: CompressionAlgorithm)
    ensures
        r == optimal_algorithm(data@, *content_type),
{
    match content_type {
        ContentType::Text => CompressionAlgorithm::Flate,
        ContentType::Image => CompressionAlgorithm::DCT,
        ContentType::Vector => CompressionAlgorithm::Flate,
        ContentType::Binary => CompressionAlgorithm::LZW,
        ContentType::Structured => CompressionAlgorithm::Flate,
        ContentType::Unknown => if has_repetitive_patterns(data) {
            CompressionAlgorithm::LZW
        } else {
            CompressionAlgorithm::Flate
        },
    }
}

/// The algorithms to try for content of the given kind: those that suit it first (DCT and
/// JPX for images, Flate for text and structure, LZW for binary data), then the preferred
/// ones.
pub open spec fn algorithm_candidates(
    preference: Seq<CompressionAlgorithm>,
    content_type: ContentType,
) -> Seq<CompressionAlgorithm> {
    match content_type {
        ContentType::Image => seq![CompressionAlgorithm::DCT, CompressionAlgorithm::JPX] + preference,
        ContentType::Text | ContentType::Structured => seq![CompressionAlgorithm::Flate] + preference,
        ContentType::Binary => seq![CompressionAlgorithm::LZW] + preference,
        _ => preference,
    }
}

/// The algorithms to try for content of the given kind, given the preferred ones.
pub fn get_algorithm_candidates(preference: &[CompressionAlgorithm], content_type: &ContentType) -> (r:
    Vec<CompressionAlgorithm>)
    ensures
        r@ == algorithm_candidates(preference@, *content_type),
{
    let mut candidates: Vec<CompressionAlgorithm> = Vec::new();
    match content_type {
        ContentType::Image => {
            candidates.push(CompressionAlgorithm::DCT);
            candidates.push(CompressionAlgorithm::JPX);
        },
        ContentType::Text | ContentType::Structured => {
            candidates.push(CompressionAlgorithm::Flate);
        },
        ContentType::Binary => {
            candidates.push(CompressionAlgorithm::LZW);
        },
        _ => {},
    }
    let ghost head = candidates@;
    let mut i: usize = 0;
    while i < preference.len()
        invariant
            i <= preference@.len(),
            candidates@ == head + preference@.take(i as int),
        decreases preference@.len() - i,
    {
        candidates.push(preference[i]);
        assert(preference@.take(i + 1) =~= preference@.take(i as int).push(preference@[i as int]));
        i += 1;
    }
    assert(preference@.take(i as int) =~= preference@);
    assert(candidates@ =~= algorithm_candidates(preference@, *content_type));
    candidates
}


/// What flate2's `ZlibEncoder` gives for `data` at compression `level`: the zlib stream it
/// writes, or `None` where the encoder reports an error.
pub uninterp spec fn zlib_result(data: Seq<u8>, level: u32) -> Option<Seq<u8>>;

/// flate2's `write::ZlibEncoder` over a `Vec`, at `Compression::new(level)`: writes all of
/// `data` and finishes. Whether it succeeds and what it produces depend on the data and the
/// level alone, and are named `zlib_result`; the error comes back as the error's text, which
/// is left unsaid.
#[verifier::external_body]
pub(crate) fn zlib_compress(data: &[u8], level: u32) -> (r: Result<Vec<u8>, String>)
    requires
        level <= 9,
    ensures
        match r {
            Ok(v) => zlib_result(data@, level) == Some(v@),
            Err(_) => zlib_result(data@, level) is None,
        },
{
    let mut encoder = flate2::write::ZlibEncoder::new(Vec::new(), flate2::Compression::new(level));
    std::io::Write::write_all(&mut encoder, data).map_err(|e| e.to_string())?;
    encoder.finish().map_err(|e| e.to_string())
}

/// The zlib level for a compression level: 1 for fast, 9 for best, 6 otherwise.
pub open spec fn flate_level_of(level: CompressionLevel) -> u32 {
    match level {
        CompressionLevel::Fast => 1,
        CompressionLevel::Best => 9,
        _ => 6,
    }
}

/// The zlib level for a compression level, as [`flate_level_of`] says.
pub fn flate_level(level: CompressionLevel) -> (r: u32)
    ensures
        r == flate_level_of(level),
{
    match level {
        CompressionLevel::Fast => 1,
        CompressionLevel::Best => 9,
        _ => 6,
    }
}

/// The name of a compression method as `{:?}` writes it.
pub open spec fn algorithm_debug_name(a: CompressionAlgorithm) -> Seq<char> {
    match a {
        CompressionAlgorithm::Flate => "Flate"@,
        CompressionAlgorithm::LZW => "LZW"@,
        CompressionAlgorithm::RunLength => "RunLength"@,
        CompressionAlgorithm::CCITT => "CCITT"@,
        CompressionAlgorithm::JBIG2 => "JBIG2"@,
        CompressionAlgorithm::DCT => "DCT"@,
        CompressionAlgorithm::JPX => "JPX"@,
        CompressionAlgorithm::Custom(n) => "Custom("@ + decimal(n as nat) + ")"@,
    }
}

/// The error for a method that cannot be used to compress.
fn unsupported_algorithm(a: CompressionAlgorithm) -> (r: String)
    ensures
        r@ == "Unsupported compression algorithm: "@ + algorithm_debug_name(a),
{
    let mut s = "Unsupported compression algorithm: ".to_string();
    match a {
        CompressionAlgorithm::Flate => s.append("Flate"),
        CompressionAlgorithm::LZW => s.append("LZW"),
        CompressionAlgorithm::RunLength => s.append("RunLength"),
        CompressionAlgorithm::CCITT => s.append("CCITT"),
        CompressionAlgorithm::JBIG2 => s.append("JBIG2"),
        CompressionAlgorithm::DCT => s.append("DCT"),
        CompressionAlgorithm::JPX => s.append("JPX"),
        CompressionAlgorithm::Custom(n) => {
            s.append("Custom(");
            append_decimal(&mut s, n as u64);
            s.append(")");
        },
    }
    s
}

/// Compresses stream data with `algorithm`: Flate through zlib at the level's zlib level,
/// LZW with early change, run-length coding; any other method is refused.
pub fn standard_compress_bytes(
    data: &[u8],
    algorithm: CompressionAlgorithm,
    level: CompressionLevel,
) -> (r: Result<Vec<u8>, String>)
    ensures
        match algorithm {
            CompressionAlgorithm::Flate => {
                &&& (r is Ok) == (zlib_result(data@, flate_level_of(level)) is Some)
                &&& r matches Ok(v) ==> zlib_result(data@, flate_level_of(level)) == Some(v@)
            },
            CompressionAlgorithm::LZW => r matches Ok(v) && v@ == lzw_stream(data@, true),
            CompressionAlgorithm::RunLength => r matches Ok(v) && v@ == rle_from(data@, 0),
            _ => r matches Err(m) && m@ == "Unsupported compression algorithm: "@
                + algorithm_debug_name(algorithm),
        },
{
    match algorithm {
        CompressionAlgorithm::Flate => zlib_compress(data, flate_level(level)),
        CompressionAlgorithm::LZW => encode_lzw_pdf(data, true),
        CompressionAlgorithm::RunLength => Ok(compress_run_length(data)),
        _ => Err(unsupported_algorithm(algorithm)),
    }
}
} // verus!
