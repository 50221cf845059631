//! JBIG2 (bi-level image) decoding.

use crate::filters::{be_value, invalid_data_message, FilterError, FilterResult};
use vstd::prelude::*;

verus! {

/// The message of the error reported when the data ends early.
pub open spec fn truncated_message() -> Seq<char> {
    "Unexpected end of JBIG2 data"@
}

/// Byte reader over JBIG2 data.
pub struct Jbig2Reader<'a> {
    pub data: &'a [u8],
    pub position: usize,
}

impl<'a> Jbig2Reader<'a> {
    /// Reader positions stay within the data.
    pub open spec fn wf(&self) -> bool {
        self.position <= self.data@.len()
    }

    pub fn new(data: &'a [u8]) -> (r: Self)
        ensures
            r.data@ == data@,
            r.position == 0,
            r.wf(),
    {
        Jbig2Reader { data, position: 0 }
    }

    pub fn is_at_end(&self) -> (r: bool)
        ensures
            r == (self.position >= self.data@.len()),
    {
        self.position >= self.data.len()
    }

    fn truncated<T>() -> (r: FilterResult<T>)
        ensures
            invalid_data_message(r) == Some(truncated_message()),
    {
        Err(FilterError::InvalidData("Unexpected end of JBIG2 data".to_string()))
    }

    pub fn read_u8(&mut self) -> (r: FilterResult<u8>)
        requires
            old(self).wf(),
        ensures
            final(self).wf(),
            final(self).data@ == old(self).data@,
            old(self).position < old(self).data@.len() ==> r == Ok::<u8, FilterError>(
                old(self).data@[old(self).position as int],
            ) && final(self).position == old(self).position + 1,
            old(self).position >= old(self).data@.len() ==> invalid_data_message(r) == Some(
                truncated_message(),
            ) && final(self).position == old(self).position,
    {
        if self.position >= self.data.len() {
            return Self::truncated();
        }
        let value = self.data[self.position];
        self.position += 1;
        Ok(value)
    }

    pub fn read_u16(&mut self) -> (r: FilterResult<u16>)
        requires
            old(self).wf(),
        ensures
            final(self).wf(),
            final(self).data@ == old(self).data@,
            reads_be(old(self).data@, old(self).position as int, 2, r, final(self).position as int),
    {
        let b1 = self.read_u8();
        let b1 = match b1 {
            Ok(b) => b as u16,
            Err(e) => return Err(e),
        };
        let b2 = self.read_u8();
        let b2 = match b2 {
            Ok(b) => b as u16,
            Err(e) => return Err(e),
        };
        proof {
            reveal_with_fuel(be_value, 3);
        }
        assert((b1 << 8u16) | b2 == b1 * 256 + b2) by (bit_vector)
            requires
                b1 < 256,
                b2 < 256,
        ;
        Ok((b1 << 8) | b2)
    }

    pub fn read_u32(&mut self) -> (r: FilterResult<u32>)
        requires
            old(self).wf(),
        ensures
            final(self).wf(),
            final(self).data@ == old(self).data@,
            reads_be(old(self).data@, old(self).position as int, 4, r, final(self).position as int),
    {
        let b1 = match self.read_u8() {
            Ok(b) => b as u32,
            Err(e) => return Err(e),
        };
        let b2 = match self.read_u8() {
            Ok(b) => b as u32,
            Err(e) => return Err(e),
        };
        let b3 = match self.read_u8() {
            Ok(b) => b as u32,
            Err(e) => return Err(e),
        };
        let b4 = match self.read_u8() {
            Ok(b) => b as u32,
            Err(e) => return Err(e),
        };
        proof {
            reveal_with_fuel(be_value, 5);
        }
        assert((b1 << 24u32) | (b2 << 16u32) | (b3 << 8u32) | b4 == ((b1 * 256 + b2) * 256 + b3)
            * 256 + b4) by (bit_vector)
            requires
                b1 < 256,
                b2 < 256,
                b3 < 256,
                b4 < 256,
        ;
        Ok((b1 << 24) | (b2 << 16) | (b3 << 8) | b4)
    }

    pub fn read_file_header(&mut self) -> (r: FilterResult<FileHeader>)
        requires
            old(self).wf(),
        ensures
            final(self).wf(),
            final(self).data@ == old(self).data@,
            parsed_as(r, final(self).position as int, spec_file_header(old(self).data@, old(self).position as int)),
    {
        let ghost d = self.data@;
        let ghost p = self.position as int;
        let mut signature: [u8; 8] = [0u8; 8];
        let mut i: usize = 0;
        while i < 8
            invariant
                self.wf(),
                self.data@ == d,
                d == old(self).data@,
                p == old(self).position,
                0 <= i <= 8,
                self.position == p + i,
                forall|j: int| 0 <= j < i ==> signature[j] == d[p + j],
            decreases 8 - i,
        {
            let b = self.read_u8();
            match b {
                Ok(v) => {
                    signature[i] = v;
                },
                Err(e) => {
                    return Err(e);
                },
            }
            i += 1;
        }
        let expected: [u8; 8] = [0x97, 0x4A, 0x42, 0x32, 0x0D, 0x0A, 0x1A, 0x0A];
        let mut k: usize = 0;
        while k < 8
            invariant
                0 <= k <= 8,
                forall|j: int| 0 <= j < k ==> signature[j] == expected[j],
                forall|j: int| 0 <= j < 8 ==> signature[j] == d[p + j],
                p + 8 <= d.len(),
                expected@ == jbig2_signature(),
                self.wf(),
                self.data@ == d,
                self.position == p + 8,
                d == old(self).data@,
                p == old(self).position,
            decreases 8 - k,
        {
            if signature[k] != expected[k] {
                assert(signature[k as int] == d[p + k]);
                assert(expected[k as int] == jbig2_signature()[k as int]);
                assert(d.subrange(p, p + 8)[k as int] != jbig2_signature()[k as int]);
                return Err(FilterError::InvalidData("Invalid JBIG2 file signature".to_string()));
            }
            k += 1;
        }
        assert(d.subrange(p, p + 8) =~= jbig2_signature());
        let file_flags = match self.read_u8() {
            Ok(v) => v,
            Err(e) => return Err(e),
        };
        let number_of_pages = if (file_flags & 0x01) != 0 {
            match self.read_u32() {
                Ok(v) => Some(v),
                Err(e) => return Err(e),
            }
        } else {
            None
        };
        Ok(FileHeader { file_organization_flags: file_flags, number_of_pages })
    }

    pub fn read_segment_header(&mut self) -> (r: FilterResult<SegmentHeader>)
        requires
            old(self).wf(),
        ensures
            final(self).wf(),
            final(self).data@ == old(self).data@,
            parsed_as(r, final(self).position as int, spec_segment_header(old(self).data@, old(self).position as int)),
    {
        let segment_number = match self.read_u32() {
            Ok(v) => v,
            Err(e) => return Err(e),
        };
        let segment_flags = match self.read_u8() {
            Ok(v) => v,
            Err(e) => return Err(e),
        };
        let code = segment_flags & 0x3F;
        let segment_type = match code {
            0 => SegmentType::SymbolDictionary,
            4 => SegmentType::IntermediateTextRegion,
            6 => SegmentType::ImmediateLosslessTextRegion,
            7 => SegmentType::ImmediateLossyTextRegion,
            16 => SegmentType::PatternDictionary,
            20 => SegmentType::IntermediateHalftoneRegion,
            22 => SegmentType::ImmediateHalftoneRegion,
            36 => SegmentType::IntermediateGenericRegion,
            38 => SegmentType::ImmediateGenericRegion,
            39 => SegmentType::GenericRegion,
            48 => SegmentType::PageInformation,
            49 => SegmentType::EndOfPage,
            50 => SegmentType::EndOfStripe,
            51 => SegmentType::EndOfFile,
            52 => SegmentType::Profiles,
            53 => SegmentType::CodeTables,
            62 => SegmentType::Extension,
            n => SegmentType::Unknown(n),
        };
        let page_association = if (segment_flags & 0x40) != 0 {
            match self.read_u32() {
                Ok(v) => Some(v),
                Err(e) => return Err(e),
            }
        } else {
            match self.read_u8() {
                Ok(v) => Some(v as u32),
                Err(e) => return Err(e),
            }
        };
        let segment_length = match self.read_u32() {
            Ok(v) => v,
            Err(e) => return Err(e),
        };
        Ok(SegmentHeader { segment_number, segment_type, page_association, segment_length })
    }

    pub fn read_region_segment_info(&mut self) -> (r: FilterResult<RegionSegmentInfo>)
        requires
            old(self).wf(),
        ensures
            final(self).wf(),
            final(self).data@ == old(self).data@,
            parsed_as(r, final(self).position as int, spec_region_info(old(self).data@, old(self).position as int)),
    {
        let width = match self.read_u32() {
            Ok(v) => v,
            Err(e) => return Err(e),
        };
        let height = match self.read_u32() {
            Ok(v) => v,
            Err(e) => return Err(e),
        };
        let x = match self.read_u32() {
            Ok(v) => v,
            Err(e) => return Err(e),
        };
        let y = match self.read_u32() {
            Ok(v) => v,
            Err(e) => return Err(e),
        };
        let combination_operator = match self.read_u8() {
            Ok(v) => v,
            Err(e) => return Err(e),
        };
        Ok(RegionSegmentInfo { width, height, x, y, combination_operator })
    }

    pub fn skip_segment_data(&mut self, segment: &SegmentHeader) -> (r: FilterResult<()>)
        requires
            old(self).wf(),
        ensures
            final(self).wf(),
            final(self).data@ == old(self).data@,
            r is Ok,
            final(self).position == old(self).position + vstd::math::min(
                segment.segment_length as int,
                old(self).data@.len() - old(self).position,
            ),
    {
        let remaining = self.data.len() - self.position;
        let len = segment.segment_length as usize;
        let skip_amount = if len < remaining { len } else { remaining };
        self.position += skip_amount;
        Ok(())
    }
}

/// File header of a JBIG2 file.
#[derive(Debug, Clone, Copy, PartialEq, Eq)]
pub struct FileHeader {
    pub file_organization_flags: u8,
    pub number_of_pages: Option<u32>,
}

/// Kind of a JBIG2 segment, from the low six bits of its flags.
#[derive(Debug, Clone, Copy, PartialEq, Eq)]
pub enum SegmentType {
    SymbolDictionary,
    IntermediateTextRegion,
    ImmediateLosslessTextRegion,
    ImmediateLossyTextRegion,
    PatternDictionary,
    IntermediateHalftoneRegion,
    ImmediateHalftoneRegion,
    IntermediateGenericRegion,
    ImmediateGenericRegion,
    GenericRegion,
    IntermediateGenericRefinementRegion,
    ImmediateGenericRefinementRegion,
    PageInformation,
    EndOfPage,
    EndOfStripe,
    EndOfFile,
    Profiles,
    CodeTables,
    Extension,
    HalftoneRegion,
    TextRegion,
    Unknown(u8),
}

/// Header of one JBIG2 segment.
#[derive(Debug, Clone, Copy, PartialEq, Eq)]
pub struct SegmentHeader {
    pub segment_number: u32,
    pub segment_type: SegmentType,
    pub page_association: Option<u32>,
    pub segment_length: u32,
}

/// Region information that starts every region segment.
#[derive(Debug, Clone, Copy, PartialEq, Eq)]
pub struct RegionSegmentInfo {
    pub width: u32,
    pub height: u32,
    pub x: u32,
    pub y: u32,
    pub combination_operator: u8,
}

/// The segment type that a segment-type code denotes.
pub open spec fn segment_type_of(code: u8) -> SegmentType {
    if code == 0 {
        SegmentType::SymbolDictionary
    } else if code == 4 {
        SegmentType::IntermediateTextRegion
    } else if code == 6 {
        SegmentType::ImmediateLosslessTextRegion
    } else if code == 7 {
        SegmentType::ImmediateLossyTextRegion
    } else if code == 16 {
        SegmentType::PatternDictionary
    } else if code == 20 {
        SegmentType::IntermediateHalftoneRegion
    } else if code == 22 {
        SegmentType::ImmediateHalftoneRegion
    } else if code == 36 {
        SegmentType::IntermediateGenericRegion
    } else if code == 38 {
        SegmentType::ImmediateGenericRegion
    } else if code == 39 {
        SegmentType::GenericRegion
    } else if code == 48 {
        SegmentType::PageInformation
    } else if code == 49 {
        SegmentType::EndOfPage
    } else if code == 50 {
        SegmentType::EndOfStripe
    } else if code == 51 {
        SegmentType::EndOfFile
    } else if code == 52 {
        SegmentType::Profiles
    } else if code == 53 {
        SegmentType::CodeTables
    } else if code == 62 {
        SegmentType::Extension
    } else {
        SegmentType::Unknown(code)
    }
}

/// The eight bytes that open every JBIG2 file.
pub open spec fn jbig2_signature() -> Seq<u8> {
    seq![0x97u8, 0x4Au8, 0x42u8, 0x32u8, 0x0Du8, 0x0Au8, 0x1Au8, 0x0Au8]
}

/// Big-endian 32-bit value at `p`.
pub open spec fn be32(d: Seq<u8>, p: int) -> u32 {
    be_value(d, p, 4) as u32
}

/// The file header at `p`, with the position after it.
pub open spec fn spec_file_header(d: Seq<u8>, p: int) -> Result<(FileHeader, int), Seq<char>> {
    if p + 8 > d.len() {
        Err(truncated_message())
    } else if d.subrange(p, p + 8) != jbig2_signature() {
        Err("Invalid JBIG2 file signature"@)
    } else if p + 9 > d.len() {
        Err(truncated_message())
    } else if d[p + 8] & 1 == 0 {
        Ok((FileHeader { file_organization_flags: d[p + 8], number_of_pages: None }, p + 9))
    } else if p + 13 > d.len() {
        Err(truncated_message())
    } else {
        Ok((FileHeader { file_organization_flags: d[p + 8], number_of_pages: Some(be32(d, p + 9)) }, p + 13))
    }
}

/// The segment header at `p`, with the position after it.
pub open spec fn spec_segment_header(d: Seq<u8>, p: int) -> Result<(SegmentHeader, int), Seq<char>> {
    if p + 5 > d.len() {
        Err(truncated_message())
    } else {
        let flags = d[p + 4];
        let (assoc, q) = if flags & 0x40 != 0 {
            (be32(d, p + 5), p + 9)
        } else {
            (d[p + 5] as u32, p + 6)
        };
        if q + 4 > d.len() {
            Err(truncated_message())
        } else {
            Ok((
                SegmentHeader {
                    segment_number: be32(d, p),
                    segment_type: segment_type_of(flags & 0x3F),
                    page_association: Some(assoc),
                    segment_length: be32(d, q),
                },
                q + 4,
            ))
        }
    }
}

/// The region information at `p`, with the position after it.
pub open spec fn spec_region_info(d: Seq<u8>, p: int) -> Result<(RegionSegmentInfo, int), Seq<char>> {
    if p + 17 > d.len() {
        Err(truncated_message())
    } else {
        Ok((
            RegionSegmentInfo {
                width: be32(d, p),
                height: be32(d, p + 4),
                x: be32(d, p + 8),
                y: be32(d, p + 12),
                combination_operator: d[p + 16],
            },
            p + 17,
        ))
    }
}

/// A reader call that returned `r` and left the reader at `q` did what `s` says:
/// on success the same value and position, on failure the same error message.
pub open spec fn parsed_as<T>(r: FilterResult<T>, q: int, s: Result<(T, int), Seq<char>>) -> bool {
    match s {
        Ok((v, np)) => r == Ok::<T, FilterError>(v) && q == np,
        Err(m) => invalid_data_message(r) == Some(m),
    }
}

/// A bi-level bitmap stored row by row.
#[derive(Debug, Clone)]
pub struct Bitmap {
    pub width: usize,
    pub height: usize,
    pub data: Vec<bool>,
}

impl Bitmap {
    /// The pixel store holds exactly one entry per pixel.
    pub open spec fn wf(&self) -> bool {
        &&& self.data@.len() == self.width * self.height
        &&& self.width * self.height <= usize::MAX
    }

    /// Every pixel is clear.
    pub open spec fn is_blank(&self) -> bool {
        forall|i: int| 0 <= i < self.data@.len() ==> !#[trigger] self.data@[i]
    }

    pub fn new(width: usize, height: usize) -> (b: Self)
        requires
            width * height <= usize::MAX,
        ensures
            b.wf(),
            b.width == width,
            b.height == height,
            b.is_blank(),
    {
        let n = width * height;
        Bitmap { width, height, data: vec![false; n] }
    }

    /// Pixel at column `x`, row `y`; pixels outside the bitmap read as clear.
    pub fn get_pixel(&self, x: usize, y: usize) -> (r: bool)
        requires
            self.wf(),
        ensures
            r == (x < self.width && y < self.height && self.data@[y * self.width + x]),
    {
        if x < self.width && y < self.height {
            proof {
                lemma_index_in_grid(x as int, y as int, self.width as int, self.height as int);
            }
            self.data[y * self.width + x]
        } else {
            false
        }
    }

    /// Sets the pixel at column `x`, row `y`; positions outside the bitmap are ignored.
    pub fn set_pixel(&mut self, x: usize, y: usize, value: bool)
        requires
            old(self).wf(),
        ensures
            final(self).wf(),
            final(self).width == old(self).width,
            final(self).height == old(self).height,
            x < old(self).width && y < old(self).height ==> final(self).data@ == old(self).data@.update(
                y * old(self).width + x,
                value,
            ),
            !(x < old(self).width && y < old(self).height) ==> final(self).data@ == old(self).data@,
    {
        if x < self.width && y < self.height {
            proof {
                lemma_index_in_grid(x as int, y as int, self.width as int, self.height as int);
            }
            let i = y * self.width + x;
            self.data.set(i, value);
        }
    }
}

/// The row-major index of a pixel inside a `w` by `h` grid lies inside the grid.
pub proof fn lemma_index_in_grid(x: int, y: int, w: int, h: int)
    requires
        0 <= x < w,
        0 <= y < h,
    ensures
        0 <= y * w + x < w * h,
{
    assert(y * w + x < w * h) by (nonlinear_arith)
        requires
            0 <= x < w,
            0 <= y < h,
    ;
    assert(0 <= y * w) by (nonlinear_arith)
        requires
            0 <= y,
            0 <= w,
    ;
}

/// Two pixels of a `w`-wide grid share a row-major index only when they are the same pixel.
proof fn lemma_grid_index_injective(x: int, y: int, x2: int, y2: int, w: int)
    requires
        0 <= x < w,
        0 <= x2 < w,
        0 <= y,
        0 <= y2,
        y2 * w + x2 == y * w + x,
    ensures
        x2 == x,
        y2 == y,
{
    if y2 < y {
        assert(y2 * w + w <= y * w) by (nonlinear_arith)
            requires
                y2 < y,
                0 <= w,
        ;
    } else if y2 > y {
        assert(y * w + w <= y2 * w) by (nonlinear_arith)
            requires
                y < y2,
                0 <= w,
        ;
    }
}

/// Writing a pixel inside a bitmap changes that pixel alone: read back it gives the value
/// written, and every other pixel of the bitmap reads as before. `after` is the bitmap as
/// [`Bitmap::set_pixel`] leaves `before`.
pub proof fn lemma_set_pixel_then_get(
    before: Bitmap,
    after: Bitmap,
    x: usize,
    y: usize,
    value: bool,
    x2: usize,
    y2: usize,
)
    requires
        before.wf(),
        x < before.width,
        y < before.height,
        after.width == before.width,
        after.height == before.height,
        after.data@ == before.data@.update(y * before.width + x, value),
    ensures
        (x < after.width && y < after.height && after.data@[y * after.width + x]) == value,
        x2 < before.width && y2 < before.height && (x2 != x || y2 != y) ==> (after.data@[y2
            * after.width + x2] == before.data@[y2 * before.width + x2]),
{
    lemma_index_in_grid(x as int, y as int, before.width as int, before.height as int);
    if x2 < before.width && y2 < before.height && (x2 != x || y2 != y) {
        lemma_index_in_grid(x2 as int, y2 as int, before.width as int, before.height as int);
        if y2 * before.width + x2 == y * before.width + x {
            lemma_grid_index_injective(
                x as int,
                y as int,
                x2 as int,
                y2 as int,
                before.width as int,
            );
        }
    }
}

/// Big-endian 16-bit value at `p`.
pub open spec fn be16(d: Seq<u8>, p: int) -> u16 {
    be_value(d, p, 2) as u16
}

/// The message of the error reported when a bitmap would not fit in memory addresses.
pub open spec fn too_large_message() -> Seq<char> {
    "JBIG2 bitmap too large"@
}

/// A `w` by `h` bitmap can be addressed.
pub open spec fn fits(w: int, h: int) -> bool {
    w * h <= usize::MAX
}

/// Number of adaptive-template pixel pairs that a generic region's flags announce.
pub open spec fn num_at_pixels(flags: u8) -> int {
    let t = flags & 3;
    if t == 0 {
        4
    } else if t == 1 {
        13
    } else if t == 2 {
        10
    } else {
        6
    }
}

/// The pixel that a generic-region byte encodes: its most significant bit.
pub open spec fn pixel_of(b: u8) -> bool {
    b & 0x80 != 0
}

/// Symbol-dictionary header at `p`: flags, optional export flags and symbol count.
pub open spec fn spec_symbol_dict(d: Seq<u8>, p: int) -> Result<((u16, Option<u32>, u32), int), Seq<char>> {
    if p + 2 > d.len() {
        Err(truncated_message())
    } else {
        let flags = be16(d, p);
        if flags & 1 != 0 {
            if p + 10 > d.len() {
                Err(truncated_message())
            } else {
                Ok(((flags, Some(be32(d, p + 2)), be32(d, p + 6)), p + 10))
            }
        } else if p + 6 > d.len() {
            Err(truncated_message())
        } else {
            Ok(((flags, None, be32(d, p + 2)), p + 6))
        }
    }
}

/// Text-region header at `p`: region, flags, Huffman flags, optional refinement flags and
/// instance count.
pub open spec fn spec_text_region(d: Seq<u8>, p: int) -> Result<
    ((RegionSegmentInfo, u16, u16, Option<u8>, u32), int),
    Seq<char>,
> {
    match spec_region_info(d, p) {
        Err(m) => Err(m),
        Ok((ri, q)) => if q + 4 > d.len() {
            Err(truncated_message())
        } else {
            let flags = be16(d, q);
            let huff = be16(d, q + 2);
            if flags & 1 != 0 {
                if q + 9 > d.len() {
                    Err(truncated_message())
                } else {
                    Ok(((ri, flags, huff, Some(d[q + 4]), be32(d, q + 5)), q + 9))
                }
            } else if q + 8 > d.len() {
                Err(truncated_message())
            } else {
                Ok(((ri, flags, huff, None, be32(d, q + 4)), q + 8))
            }
        },
    }
}

/// Page-information segment at `p`.
pub open spec fn spec_page_info(d: Seq<u8>, p: int) -> Result<(PageInformation, int), Seq<char>> {
    if p + 17 > d.len() {
        Err(truncated_message())
    } else {
        let flags = d[p + 16];
        let base = PageInformation {
            width: be32(d, p),
            height: be32(d, p + 4),
            x_resolution: be32(d, p + 8),
            y_resolution: be32(d, p + 12),
            flags,
            striping_info: None,
        };
        if flags & 0x80 != 0 {
            if p + 19 > d.len() {
                Err(truncated_message())
            } else {
                Ok((
                    PageInformation {
                        striping_info: Some(StripingInfo { max_stripe_size: be16(d, p + 17) }),
                        ..base
                    },
                    p + 19,
                ))
            }
        } else {
            Ok((base, p + 17))
        }
    }
}

/// Generic-region segment at `p`: region, flags and the pixels, one per byte.
pub open spec fn spec_generic_region(d: Seq<u8>, p: int) -> Result<
    ((RegionSegmentInfo, u8, Seq<bool>), int),
    Seq<char>,
> {
    match spec_region_info(d, p) {
        Err(m) => Err(m),
        Ok((ri, q)) => if q + 1 > d.len() {
            Err(truncated_message())
        } else {
            let flags = d[q];
            let q2 = q + 1 + 2 * num_at_pixels(flags);
            let n = ri.width * ri.height;
            if q2 > d.len() {
                Err(truncated_message())
            } else if !fits(ri.width as int, ri.height as int) {
                Err(too_large_message())
            } else if q2 + n > d.len() {
                Err(truncated_message())
            } else {
                Ok(((ri, flags, Seq::new(n as nat, |i: int| pixel_of(d[q2 + i]))), q2 + n))
            }
        },
    }
}

/// Halftone-region segment at `p`: region, flags and grid parameters.
pub open spec fn spec_halftone_region(d: Seq<u8>, p: int) -> Result<
    ((RegionSegmentInfo, u8, u32, u32, u32, u32), int),
    Seq<char>,
> {
    match spec_region_info(d, p) {
        Err(m) => Err(m),
        Ok((ri, q)) => if q + 17 > d.len() {
            Err(truncated_message())
        } else if !fits(ri.width as int, ri.height as int) {
            Err(too_large_message())
        } else {
            Ok(
                (
                    (ri, d[q], be32(d, q + 1), be32(d, q + 5), be32(d, q + 9), be32(d, q + 13)),
                    q + 17,
                ),
            )
        },
    }
}

/// Pattern-dictionary segment at `p`: flags, pattern width and height, pattern count.
pub open spec fn spec_pattern_dict(d: Seq<u8>, p: int) -> Result<((u8, u8, u8, u32), int), Seq<char>> {
    if p + 7 > d.len() {
        Err(truncated_message())
    } else {
        Ok(((d[p], d[p + 1], d[p + 2], be32(d, p + 3)), p + 7))
    }
}

/// Information segment of a page.
#[derive(Debug, Clone, Copy, PartialEq, Eq)]
pub struct PageInformation {
    pub width: u32,
    pub height: u32,
    pub x_resolution: u32,
    pub y_resolution: u32,
    pub flags: u8,
    pub striping_info: Option<StripingInfo>,
}

/// Striping parameters of a page.
#[derive(Debug, Clone, Copy, PartialEq, Eq)]
pub struct StripingInfo {
    pub max_stripe_size: u16,
}

/// One symbol of a symbol dictionary.
#[derive(Debug, Clone)]
pub struct Symbol {
    pub id: u32,
    pub width: u32,
    pub height: u32,
    pub bitmap: Vec<u8>,
}

impl Symbol {
    /// The placeholder symbol that the decoder produces for index `id`: an eight by eight
    /// bitmap of set bytes.
    pub open spec fn is_placeholder(&self, id: u32) -> bool {
        &&& self.id == id
        &&& self.width == 8
        &&& self.height == 8
        &&& self.bitmap@ == Seq::new(8, |i: int| 0xFFu8)
    }
}

/// A decoded symbol dictionary.
#[derive(Debug, Clone)]
pub struct SymbolDictionary {
    pub flags: u16,
    pub export_flags: Option<u32>,
    pub symbols: Vec<Symbol>,
}

impl SymbolDictionary {
    /// The dictionary holds the given header fields and one placeholder per symbol.
    pub open spec fn matches(&self, flags: u16, export_flags: Option<u32>, num: u32) -> bool {
        &&& self.flags == flags
        &&& self.export_flags == export_flags
        &&& self.symbols@.len() == num
        &&& forall|i: int| 0 <= i < num ==> #[trigger] self.symbols@[i].is_placeholder(i as u32)
    }
}

/// Refinement offsets of a text instance.
#[derive(Debug, Clone, Copy, PartialEq, Eq)]
pub struct RefinementInfo {
    pub refinement_dx: i8,
    pub refinement_dy: i8,
}

/// One placed symbol of a text region.
#[derive(Debug, Clone, Copy, PartialEq, Eq)]
pub struct TextInstance {
    pub symbol_id: u32,
    pub x: i32,
    pub y: i32,
    pub refinement_info: Option<RefinementInfo>,
}

/// The instance that the decoder places for index `i`: symbol `i` at column `10 * i`
/// (wrapped to 32 bits), row 0.
pub open spec fn placed_instance(i: u32) -> TextInstance {
    TextInstance {
        symbol_id: i,
        x: i.wrapping_mul(10) as i32,
        y: 0,
        refinement_info: None,
    }
}

/// A decoded text region.
#[derive(Debug, Clone)]
pub struct TextRegion {
    pub region_info: RegionSegmentInfo,
    pub flags: u16,
    pub huffman_flags: u16,
    pub refinement_flags: Option<u8>,
    pub instances: Vec<TextInstance>,
}

/// A decoded generic region.
#[derive(Debug, Clone)]
pub struct GenericRegion {
    pub region_info: RegionSegmentInfo,
    pub flags: u8,
    pub bitmap: Bitmap,
}

/// A decoded halftone region.
#[derive(Debug, Clone)]
pub struct HalftoneRegion {
    pub region_info: RegionSegmentInfo,
    pub flags: u8,
    pub grid_width: u32,
    pub grid_height: u32,
    pub grid_x: u32,
    pub grid_y: u32,
    pub bitmap: Bitmap,
}

/// A decoded pattern dictionary.
#[derive(Debug, Clone)]
pub struct PatternDictionary {
    pub flags: u8,
    pub pattern_width: u8,
    pub pattern_height: u8,
    pub patterns: Vec<Bitmap>,
}

impl PatternDictionary {
    /// The dictionary holds the given header fields and `num` blank patterns of the
    /// announced size.
    pub open spec fn matches(&self, flags: u8, pw: u8, ph: u8, num: u32) -> bool {
        &&& self.flags == flags
        &&& self.pattern_width == pw
        &&& self.pattern_height == ph
        &&& self.patterns@.len() == num
        &&& forall|i: int|
            0 <= i < num ==> {
                &&& (#[trigger] self.patterns@[i]).wf()
                &&& self.patterns@[i].is_blank()
                &&& self.patterns@[i].width == pw
                &&& self.patterns@[i].height == ph
            }
    }
}

/// A segment kept from the global data stream.
#[derive(Debug, Clone)]
pub enum GlobalSegment {
    SymbolDictionary(SymbolDictionary),
    PatternDictionary(PatternDictionary),
}

/// What a global segment records, without its payload.
pub enum GlobalSummary {
    Symbols(u16, Option<u32>, u32),
    Patterns(u8, u8, u8, u32),
}

impl GlobalSegment {
    /// The segment is the one that the summary describes.
    pub open spec fn matches(&self, s: GlobalSummary) -> bool {
        match (self, s) {
            (GlobalSegment::SymbolDictionary(sd), GlobalSummary::Symbols(f, e, n)) => sd.matches(f, e, n),
            (GlobalSegment::PatternDictionary(pd), GlobalSummary::Patterns(f, w, h, n)) => pd.matches(f, w, h, n),
            _ => false,
        }
    }
}

/// A page being assembled.
#[derive(Debug, Clone)]
pub struct Page {
    pub info: PageInformation,
    pub bitmap: Bitmap,
}

impl Page {
    /// The page bitmap has the size that the page information announces.
    pub open spec fn wf(&self) -> bool {
        &&& self.bitmap.wf()
        &&& self.bitmap.width == self.info.width
        &&& self.bitmap.height == self.info.height
    }
}

/// Decoder for the (simplified) arithmetic-coded pixel data.
pub struct ArithmeticDecoder {
    pub state: u32,
}

impl ArithmeticDecoder {
    pub fn new() -> (r: FilterResult<Self>)
        ensures
            r matches Ok(a) && a.state == 0,
    {
        Ok(ArithmeticDecoder { state: 0 })
    }

    /// Decodes one pixel: the most significant bit of the next byte.
    pub fn decode_bit(&mut self, reader: &mut Jbig2Reader) -> (r: FilterResult<bool>)
        requires
            old(reader).wf(),
        ensures
            final(reader).wf(),
            final(reader).data@ == old(reader).data@,
            old(reader).position < old(reader).data@.len() ==> r == Ok::<bool, FilterError>(
                pixel_of(old(reader).data@[old(reader).position as int]),
            ) && final(reader).position == old(reader).position + 1,
            old(reader).position >= old(reader).data@.len() ==> invalid_data_message(r) == Some(
                truncated_message(),
            ) && final(reader).position == old(reader).position,
    {
        let byte = match reader.read_u8() {
            Ok(b) => b,
            Err(e) => return Err(e),
        };
        Ok(byte & 0x80 != 0)
    }
}

/// JBIG2 decoder configuration.
#[derive(Debug, Clone)]
pub struct Jbig2Config {
    /// Maximum memory usage for decoding, in megabytes.
    pub max_memory_mb: usize,
    /// Reject non-standard features.
    pub strict_mode: bool,
    /// Maximum number of symbols in a dictionary.
    pub max_symbols: u32,
}

impl Default for Jbig2Config {
    fn default() -> (c: Self)
        ensures
            c.max_memory_mb == 64,
            !c.strict_mode,
            c.max_symbols == 65536,
    {
        Jbig2Config { max_memory_mb: 64, strict_mode: false, max_symbols: 65536 }
    }
}

/// What reading an `n`-byte big-endian integer at `p` gives: the value and the position
/// after it, or, where fewer than `n` bytes remain, the truncation error with the reader
/// left at the end of the data.
pub open spec fn reads_be<T: Integer>(d: Seq<u8>, p: int, n: nat, r: FilterResult<T>, q: int) -> bool {
    if p + n <= d.len() {
        &&& r matches Ok(v) && v as int == be_value(d, p, n)
        &&& q == p + n
    } else {
        &&& invalid_data_message(r) == Some(truncated_message())
        &&& q == d.len()
    }
}

/// Decoder for JBIG2-compressed bi-level images.
pub struct Jbig2Decoder {
    /// Segments kept from the global data stream.
    pub global_segments: Vec<GlobalSegment>,
    /// Decoder configuration.
    pub config: Jbig2Config,
}

/// Reader contract shared by the segment decoders: the data is unchanged and the reader
/// stays well formed.
pub open spec fn reader_kept(a: Jbig2Reader, b: Jbig2Reader) -> bool {
    &&& b.wf()
    &&& b.data@ == a.data@
}

/// Checked product of two bitmap dimensions.
fn bitmap_size(width: usize, height: usize) -> (r: FilterResult<usize>)
    ensures
        fits(width as int, height as int) ==> r == Ok::<usize, FilterError>((width * height) as usize),
        !fits(width as int, height as int) ==> invalid_data_message(r) == Some(too_large_message()),
{
    match width.checked_mul(height) {
        Some(n) => Ok(n),
        None => Err(FilterError::InvalidData("JBIG2 bitmap too large".to_string())),
    }
}

impl Jbig2Decoder {
    pub fn new() -> (r: Self)
        ensures
            r.global_segments@.len() == 0,
            r.config.max_memory_mb == 64,
            !r.config.strict_mode,
            r.config.max_symbols == 65536,
    {
        Jbig2Decoder { global_segments: Vec::new(), config: Jbig2Config::default() }
    }

    pub fn with_config(config: Jbig2Config) -> (r: Self)
        ensures
            r.global_segments@.len() == 0,
            r.config == config,
    {
        Jbig2Decoder { global_segments: Vec::new(), config }
    }

    /// Decodes a symbol dictionary segment; each symbol is an eight by eight placeholder.
    pub fn decode_symbol_dictionary(&self, reader: &mut Jbig2Reader, _segment: &SegmentHeader) -> (r:
        FilterResult<SymbolDictionary>)
        requires
            old(reader).wf(),
        ensures
            reader_kept(*old(reader), *final(reader)),
            match spec_symbol_dict(old(reader).data@, old(reader).position as int) {
                Ok(((f, e, n), q)) => r matches Ok(sd) && sd.matches(f, e, n) && final(reader).position == q,
                Err(m) => invalid_data_message(r) == Some(m),
            },
    {
        proof {
            reveal_with_fuel(be_value, 5);
        }
        let flags = match reader.read_u16() {
            Ok(v) => v,
            Err(e) => return Err(e),
        };
        let export_flags = if (flags & 0x0001) != 0 {
            match reader.read_u32() {
                Ok(v) => Some(v),
                Err(e) => return Err(e),
            }
        } else {
            None
        };
        let num_symbols = match reader.read_u32() {
            Ok(v) => v,
            Err(e) => return Err(e),
        };
        let mut symbols: Vec<Symbol> = Vec::new();
        let mut arithmetic_decoder = match ArithmeticDecoder::new() {
            Ok(a) => a,
            Err(e) => return Err(e),
        };
        let mut i: u32 = 0;
        while i < num_symbols
            invariant
                i <= num_symbols,
                symbols@.len() == i,
                forall|j: int| 0 <= j < i ==> #[trigger] symbols@[j].is_placeholder(j as u32),
            decreases num_symbols - i,
        {
            let symbol = match self.decode_symbol(&mut arithmetic_decoder, i) {
                Ok(sym) => sym,
                Err(e) => return Err(e),
            };
            symbols.push(symbol);
            i += 1;
        }
        Ok(SymbolDictionary { flags, export_flags, symbols })
    }

    /// The symbol with the given index: an eight by eight bitmap of set bytes.
    pub fn decode_symbol(&self, _decoder: &mut ArithmeticDecoder, symbol_id: u32) -> (r: FilterResult<Symbol>)
        ensures
            r matches Ok(sym) && sym.is_placeholder(symbol_id),
    {
        let bitmap = vec![0xFFu8; 8];
        assert(bitmap@ =~= Seq::new(8, |i: int| 0xFFu8));
        Ok(Symbol { id: symbol_id, width: 8, height: 8, bitmap })
    }

    /// Decodes a text region segment.
    pub fn decode_text_region(&self, reader: &mut Jbig2Reader, _segment: &SegmentHeader) -> (r:
        FilterResult<TextRegion>)
        requires
            old(reader).wf(),
        ensures
            reader_kept(*old(reader), *final(reader)),
            match spec_text_region(old(reader).data@, old(reader).position as int) {
                Ok(((ri, f, h, rf, n), q)) => r matches Ok(tr) && tr.region_info == ri && tr.flags == f
                    && tr.huffman_flags == h && tr.refinement_flags == rf && tr.instances@.len() == n
                    && (forall|i: int| 0 <= i < n ==> #[trigger] tr.instances@[i] == placed_instance(i as u32))
                    && final(reader).position == q,
                Err(m) => invalid_data_message(r) == Some(m),
            },
    {
        proof {
            reveal_with_fuel(be_value, 5);
        }
        let region_info = match reader.read_region_segment_info() {
            Ok(v) => v,
            Err(e) => return Err(e),
        };
        let text_region_flags = match reader.read_u16() {
            Ok(v) => v,
            Err(e) => return Err(e),
        };
        let huffman_flags = match reader.read_u16() {
            Ok(v) => v,
            Err(e) => return Err(e),
        };
        let refinement_flags = if (text_region_flags & 0x0001) != 0 {
            match reader.read_u8() {
                Ok(v) => Some(v),
                Err(e) => return Err(e),
            }
        } else {
            None
        };
        let num_instances = match reader.read_u32() {
            Ok(v) => v,
            Err(e) => return Err(e),
        };
        let mut arithmetic_decoder = match ArithmeticDecoder::new() {
            Ok(a) => a,
            Err(e) => return Err(e),
        };
        let instances = match self.decode_text_instances(&mut arithmetic_decoder, num_instances) {
            Ok(v) => v,
            Err(e) => return Err(e),
        };
        Ok(TextRegion {
            region_info,
            flags: text_region_flags,
            huffman_flags,
            refinement_flags,
            instances,
        })
    }

    /// Places `count` instances: instance `i` shows symbol `i` at column `10 * i`.
    pub fn decode_text_instances(&self, _decoder: &mut ArithmeticDecoder, count: u32) -> (r: FilterResult<
        Vec<TextInstance>,
    >)
        ensures
            r matches Ok(v) && v@.len() == count && (forall|i: int|
                0 <= i < count ==> #[trigger] v@[i] == placed_instance(i as u32)),
    {
        let mut instances: Vec<TextInstance> = Vec::new();
        let mut i: u32 = 0;
        while i < count
            invariant
                i <= count,
                instances@.len() == i,
                forall|j: int| 0 <= j < i ==> #[trigger] instances@[j] == placed_instance(j as u32),
            decreases count - i,
        {
            let instance = TextInstance {
                symbol_id: i,
                x: i.wrapping_mul(10) as i32,
                y: 0,
                refinement_info: None,
            };
            instances.push(instance);
            i += 1;
        }
        Ok(instances)
    }

    /// Decodes a page information segment.
    pub fn decode_page_information(&self, reader: &mut Jbig2Reader, _segment: &SegmentHeader) -> (r:
        FilterResult<PageInformation>)
        requires
            old(reader).wf(),
        ensures
            reader_kept(*old(reader), *final(reader)),
            parsed_as(r, final(reader).position as int, spec_page_info(old(reader).data@, old(reader).position as int)),
    {
        proof {
            reveal_with_fuel(be_value, 5);
        }
        let width = match reader.read_u32() {
            Ok(v) => v,
            Err(e) => return Err(e),
        };
        let height = match reader.read_u32() {
            Ok(v) => v,
            Err(e) => return Err(e),
        };
        let x_resolution = match reader.read_u32() {
            Ok(v) => v,
            Err(e) => return Err(e),
        };
        let y_resolution = match reader.read_u32() {
            Ok(v) => v,
            Err(e) => return Err(e),
        };
        let flags = match reader.read_u8() {
            Ok(v) => v,
            Err(e) => return Err(e),
        };
        let striping_info = if (flags & 0x80) != 0 {
            match reader.read_u16() {
                Ok(v) => Some(StripingInfo { max_stripe_size: v }),
                Err(e) => return Err(e),
            }
        } else {
            None
        };
        Ok(PageInformation { width, height, x_resolution, y_resolution, flags, striping_info })
    }
    /// Decodes a generic region segment.
    #[verifier::loop_isolation(false)]
    pub fn decode_generic_region(&self, reader: &mut Jbig2Reader, _segment: &SegmentHeader) -> (r:
        FilterResult<GenericRegion>)
        requires
            old(reader).wf(),
        ensures
            reader_kept(*old(reader), *final(reader)),
            match spec_generic_region(old(reader).data@, old(reader).position as int) {
                Ok(((ri, f, px), q)) => r matches Ok(g) && g.region_info == ri && g.flags == f
                    && g.bitmap.wf() && g.bitmap.width == ri.width && g.bitmap.height == ri.height
                    && g.bitmap.data@ == px && final(reader).position == q,
                Err(m) => invalid_data_message(r) == Some(m),
            },
    {
        let region_info = match reader.read_region_segment_info() {
            Ok(v) => v,
            Err(e) => return Err(e),
        };
        let flags = match reader.read_u8() {
            Ok(v) => v,
            Err(e) => return Err(e),
        };
        let t = flags & 0x03;
        let num_at: usize = if t == 0 {
            4
        } else if t == 1 {
            13
        } else if t == 2 {
            10
        } else {
            6
        };
        let ghost q1 = reader.position as int;
        let mut k: usize = 0;
        while k < num_at
            invariant
                reader.wf(),
                reader.data@ == old(reader).data@,
                k <= num_at,
                num_at == num_at_pixels(flags),
                reader.position == q1 + 2 * k,
                q1 + 2 * k <= reader.data@.len(),
            decreases num_at - k,
        {
            match reader.read_u8() {
                Ok(_) => {},
                Err(e) => return Err(e),
            }
            match reader.read_u8() {
                Ok(_) => {},
                Err(e) => return Err(e),
            }
            k += 1;
        }
        let mut arithmetic_decoder = match ArithmeticDecoder::new() {
            Ok(a) => a,
            Err(e) => return Err(e),
        };
        let bitmap = match self.decode_generic_bitmap(&mut arithmetic_decoder, reader, &region_info) {
            Ok(b) => b,
            Err(e) => return Err(e),
        };
        Ok(GenericRegion { region_info, flags, bitmap })
    }

    /// Reads one pixel per byte, row by row, for the region's width and height.
    #[verifier::loop_isolation(false)]
    pub fn decode_generic_bitmap(
        &self,
        decoder: &mut ArithmeticDecoder,
        reader: &mut Jbig2Reader,
        region_info: &RegionSegmentInfo,
    ) -> (r: FilterResult<Bitmap>)
        requires
            old(reader).wf(),
        ensures
            reader_kept(*old(reader), *final(reader)),
            ({
                let d = old(reader).data@;
                let p = old(reader).position as int;
                let w = region_info.width as int;
                let h = region_info.height as int;
                if !fits(w, h) {
                    invalid_data_message(r) == Some(too_large_message())
                } else if p + w * h > d.len() {
                    invalid_data_message(r) == Some(truncated_message())
                } else {
                    &&& r matches Ok(b) && b.wf() && b.width == w && b.height == h
                        && b.data@ == Seq::new((w * h) as nat, |i: int| pixel_of(d[p + i]))
                    &&& final(reader).position == p + w * h
                }
            }),
    {
        let width = region_info.width as usize;
        let height = region_info.height as usize;
        let n = match bitmap_size(width, height) {
            Ok(n) => n,
            Err(e) => return Err(e),
        };
        let mut bitmap = Bitmap::new(width, height);
        let ghost d = reader.data@;
        let ghost p = reader.position as int;
        let mut y: usize = 0;
        while y < height
            invariant
                reader.wf(),
                reader.data@ == d,
                d == old(reader).data@,
                p == old(reader).position,
                n == width * height,
                bitmap.wf(),
                bitmap.width == width,
                bitmap.height == height,
                y <= height,
                reader.position == p + y * width,
                bitmap.data@ == Seq::new(n as nat, |i: int| if i < y * width { pixel_of(d[p + i]) } else { false }),
            decreases height - y,
        {
            let mut x: usize = 0;
            while x < width
                invariant
                    reader.wf(),
                    reader.data@ == d,
                    d == old(reader).data@,
                    p == old(reader).position,
                    n == width * height,
                    bitmap.wf(),
                    bitmap.width == width,
                    bitmap.height == height,
                    y < height,
                    x <= width,
                    reader.position == p + y * width + x,
                    bitmap.data@ == Seq::new(
                        n as nat,
                        |i: int| if i < y * width + x { pixel_of(d[p + i]) } else { false },
                    ),
                decreases width - x,
            {
                proof {
                    lemma_index_in_grid(x as int, y as int, width as int, height as int);
                }
                let pixel = match decoder.decode_bit(reader) {
                    Ok(b) => b,
                    Err(e) => {
                        assert(p + width * height > d.len());
                        return Err(e);
                    },
                };
                bitmap.set_pixel(x, y, pixel);
                assert(bitmap.data@ =~= Seq::new(
                    n as nat,
                    |i: int| if i < y * width + x + 1 { pixel_of(d[p + i]) } else { false },
                ));
                x += 1;
            }
            assert(y * width + width == (y + 1) * width) by (nonlinear_arith);
            y += 1;
        }
        assert(y * width == width * height) by (nonlinear_arith)
            requires
                y == height,
        ;
        assert(bitmap.data@ =~= Seq::new(n as nat, |i: int| pixel_of(d[p + i])));
        Ok(bitmap)
    }
    /// Decodes a halftone region segment; its bitmap is left blank.
    pub fn decode_halftone_region(&self, reader: &mut Jbig2Reader, _segment: &SegmentHeader) -> (r:
        FilterResult<HalftoneRegion>)
        requires
            old(reader).wf(),
        ensures
            reader_kept(*old(reader), *final(reader)),
            match spec_halftone_region(old(reader).data@, old(reader).position as int) {
                Ok(((ri, f, gw, gh, gx, gy), q)) => r matches Ok(hr) && hr.region_info == ri
                    && hr.flags == f && hr.grid_width == gw && hr.grid_height == gh && hr.grid_x == gx
                    && hr.grid_y == gy && hr.bitmap.wf() && hr.bitmap.is_blank()
                    && hr.bitmap.width == ri.width && hr.bitmap.height == ri.height
                    && final(reader).position == q,
                Err(m) => invalid_data_message(r) == Some(m),
            },
    {
        proof {
            reveal_with_fuel(be_value, 5);
        }
        let region_info = match reader.read_region_segment_info() {
            Ok(v) => v,
            Err(e) => return Err(e),
        };
        let flags = match reader.read_u8() {
            Ok(v) => v,
            Err(e) => return Err(e),
        };
        let grid_width = match reader.read_u32() {
            Ok(v) => v,
            Err(e) => return Err(e),
        };
        let grid_height = match reader.read_u32() {
            Ok(v) => v,
            Err(e) => return Err(e),
        };
        let grid_x = match reader.read_u32() {
            Ok(v) => v,
            Err(e) => return Err(e),
        };
        let grid_y = match reader.read_u32() {
            Ok(v) => v,
            Err(e) => return Err(e),
        };
        let width = region_info.width as usize;
        let height = region_info.height as usize;
        match bitmap_size(width, height) {
            Ok(_) => {},
            Err(e) => return Err(e),
        }
        let bitmap = Bitmap::new(width, height);
        Ok(HalftoneRegion { region_info, flags, grid_width, grid_height, grid_x, grid_y, bitmap })
    }

    /// Decodes a pattern dictionary segment; its patterns are left blank.
    pub fn decode_pattern_dictionary(&self, reader: &mut Jbig2Reader, _segment: &SegmentHeader) -> (r:
        FilterResult<PatternDictionary>)
        requires
            old(reader).wf(),
        ensures
            reader_kept(*old(reader), *final(reader)),
            match spec_pattern_dict(old(reader).data@, old(reader).position as int) {
                Ok(((f, pw, ph, n), q)) => r matches Ok(pd) && pd.matches(f, pw, ph, n)
                    && final(reader).position == q,
                Err(m) => invalid_data_message(r) == Some(m),
            },
    {
        proof {
            reveal_with_fuel(be_value, 5);
        }
        let flags = match reader.read_u8() {
            Ok(v) => v,
            Err(e) => return Err(e),
        };
        let pattern_width = match reader.read_u8() {
            Ok(v) => v,
            Err(e) => return Err(e),
        };
        let pattern_height = match reader.read_u8() {
            Ok(v) => v,
            Err(e) => return Err(e),
        };
        let num_patterns = match reader.read_u32() {
            Ok(v) => v,
            Err(e) => return Err(e),
        };
        let mut patterns: Vec<Bitmap> = Vec::new();
        let mut i: u32 = 0;
        while i < num_patterns
            invariant
                i <= num_patterns,
                patterns@.len() == i,
                forall|j: int|
                    0 <= j < i ==> {
                        &&& (#[trigger] patterns@[j]).wf()
                        &&& patterns@[j].is_blank()
                        &&& patterns@[j].width == pattern_width
                        &&& patterns@[j].height == pattern_height
                    },
            decreases num_patterns - i,
        {
            assert(pattern_width as int * pattern_height as int <= 255 * 255) by (nonlinear_arith)
                requires
                    pattern_width <= 255,
                    pattern_height <= 255,
            ;
            let pattern = Bitmap::new(pattern_width as usize, pattern_height as usize);
            patterns.push(pattern);
            i += 1;
        }
        Ok(PatternDictionary { flags, pattern_width, pattern_height, patterns })
    }

    /// Symbol dictionaries met in the page stream are not kept.
    pub fn register_symbol_dictionary(&mut self, _symbol_dict: SymbolDictionary)
        ensures
            final(self).global_segments@ == old(self).global_segments@,
            final(self).config == old(self).config,
    {
    }

    /// A blank page of the announced size.
    pub fn create_page(&self, page_info: PageInformation) -> (r: FilterResult<Page>)
        ensures
            fits(page_info.width as int, page_info.height as int) ==> (r matches Ok(pg) && pg.info
                == page_info && pg.wf() && pg.bitmap.is_blank()),
            !fits(page_info.width as int, page_info.height as int) ==> invalid_data_message(r) == Some(
                too_large_message(),
            ),
    {
        let width = page_info.width as usize;
        let height = page_info.height as usize;
        match bitmap_size(width, height) {
            Ok(_) => {},
            Err(e) => return Err(e),
        }
        Ok(Page { info: page_info, bitmap: Bitmap::new(width, height) })
    }

    /// Text regions leave the page unchanged.
    pub fn apply_text_region(&self, _page: &mut Option<Page>, _text_region: TextRegion) -> (r: FilterResult<()>)
        ensures
            r is Ok,
            *final(_page) == *old(_page),
    {
        Ok(())
    }

    /// Generic regions leave the page unchanged.
    pub fn apply_generic_region(&self, _page: &mut Option<Page>, _generic_region: GenericRegion) -> (r:
        FilterResult<()>)
        ensures
            r is Ok,
            *final(_page) == *old(_page),
    {
        Ok(())
    }

    /// Halftone regions leave the page unchanged.
    pub fn apply_halftone_region(&self, _page: &mut Option<Page>, _halftone_region: HalftoneRegion) -> (r:
        FilterResult<()>)
        ensures
            r is Ok,
            *final(_page) == *old(_page),
    {
        Ok(())
    }
}

/// Bit `j` of byte `b`, counting from the most significant bit.
pub open spec fn byte_bit(b: u8, j: int) -> bool {
    (b >> ((7 - j) as u8)) & 1u8 == 1u8
}

/// Bit `j` of packed byte `k` of the pixels `px`: pixel `8 * k + j`, clear past the end.
pub open spec fn packed_bit(px: Seq<bool>, k: int, j: int) -> bool {
    0 <= 8 * k + j < px.len() && px[8 * k + j]
}

/// Number of bytes per row of a `w`-pixel-wide packed bitmap.
pub open spec fn bytes_per_row(w: int) -> int {
    if w % 8 == 0 {
        w / 8
    } else {
        w / 8 + 1
    }
}

proof fn lemma_bit_of_or(x: u8, j0: u8, j: u8)
    requires
        j0 < 8,
        j < 8,
    ensures
        ((x | (1u8 << ((7 - j0) as u8))) >> ((7 - j) as u8)) & 1u8 == 1u8 <==> (j == j0 || (x >> ((7
            - j) as u8)) & 1u8 == 1u8),
{
    assert(((x | (1u8 << ((7 - j0) as u8))) >> ((7 - j) as u8)) & 1u8 == 1u8 <==> (j == j0 || (x
        >> ((7 - j) as u8)) & 1u8 == 1u8)) by (bit_vector)
        requires
            j0 < 8,
            j < 8,
    ;
}

proof fn lemma_bit_of_zero(j: u8)
    requires
        j < 8,
    ensures
        (0u8 >> ((7 - j) as u8)) & 1u8 != 1u8,
{
    assert((0u8 >> ((7 - j) as u8)) & 1u8 != 1u8) by (bit_vector)
        requires
            j < 8,
    ;
}

/// A byte none of whose bits are set is zero.
pub proof fn lemma_no_bits_is_zero(b: u8)
    requires
        forall|j: int| 0 <= j < 8 ==> !#[trigger] byte_bit(b, j),
    ensures
        b == 0,
{
    assert(!byte_bit(b, 0) && !byte_bit(b, 1) && !byte_bit(b, 2) && !byte_bit(b, 3));
    assert(!byte_bit(b, 4) && !byte_bit(b, 5) && !byte_bit(b, 6) && !byte_bit(b, 7));
    assert(((b >> 7u8) & 1u8 != 1u8 && (b >> 6u8) & 1u8 != 1u8 && (b >> 5u8) & 1u8 != 1u8 && (b
        >> 4u8) & 1u8 != 1u8 && (b >> 3u8) & 1u8 != 1u8 && (b >> 2u8) & 1u8 != 1u8 && (b >> 1u8)
        & 1u8 != 1u8 && (b >> 0u8) & 1u8 != 1u8) ==> b == 0) by (bit_vector);
}

proof fn lemma_bytes_fit(w: int, h: int)
    requires
        0 <= w,
        0 <= h,
    ensures
        bytes_per_row(w) * h <= w * h,
{
    assert(bytes_per_row(w) <= w);
    assert(bytes_per_row(w) * h <= w * h) by (nonlinear_arith)
        requires
            bytes_per_row(w) <= w,
            0 <= h,
    ;
}

proof fn lemma_byte_index_fits(w: int, h: int, i: int)
    requires
        0 <= w,
        0 <= h,
        0 <= i < w * h,
    ensures
        i / 8 < bytes_per_row(w) * h,
{
    assert(w <= 8 * bytes_per_row(w));
    assert(w * h <= 8 * bytes_per_row(w) * h) by (nonlinear_arith)
        requires
            w <= 8 * bytes_per_row(w),
            0 <= h,
    ;
    assert(i / 8 < bytes_per_row(w) * h) by (nonlinear_arith)
        requires
            0 <= i < 8 * bytes_per_row(w) * h,
    ;
}

impl Jbig2Decoder {
    /// Packs the page bitmap into bytes, most significant bit first, `ceil(width / 8)`
    /// bytes per row.
    #[verifier::loop_isolation(false)]
    pub fn render_page_to_bytes(&self, page: Page) -> (r: FilterResult<Vec<u8>>)
        requires
            page.wf(),
        ensures
            r matches Ok(v) && v@.len() == bytes_per_row(page.info.width as int) * page.info.height
                && (forall|k: int, j: int|
                0 <= k < v@.len() && 0 <= j < 8 ==> #[trigger] byte_bit(v@[k], j) == packed_bit(
                    page.bitmap.data@,
                    k,
                    j,
                )),
    {
        let width = page.info.width as usize;
        let height = page.info.height as usize;
        let bytes_per_row = width / 8 + if width % 8 != 0 {
            1
        } else {
            0
        };
        proof {
            lemma_bytes_fit(width as int, height as int);
        }
        let len = bytes_per_row * height;
        let mut result: Vec<u8> = vec![0u8; len];
        let ghost px = page.bitmap.data@;
        assert forall|k: int, j: int| 0 <= k < result@.len() && 0 <= j < 8 implies #[trigger] byte_bit(
            result@[k],
            j,
        ) == (8 * k + j < 0 && packed_bit(px, k, j)) by {
            lemma_bit_of_zero(j as u8);
        }
        let mut y: usize = 0;
        while y < height
            invariant
                y <= height,
                result@.len() == len,
                forall|k: int, j: int|
                    0 <= k < result@.len() && 0 <= j < 8 ==> #[trigger] byte_bit(result@[k], j) == (8
                        * k + j < y * width && packed_bit(px, k, j)),
            decreases height - y,
        {
            let mut x: usize = 0;
            while x < width
                invariant
                    y < height,
                    x <= width,
                    result@.len() == len,
                    forall|k: int, j: int|
                        0 <= k < result@.len() && 0 <= j < 8 ==> #[trigger] byte_bit(result@[k], j) == (
                        8 * k + j < y * width + x && packed_bit(px, k, j)),
                decreases width - x,
            {
                proof {
                    lemma_index_in_grid(x as int, y as int, width as int, height as int);
                }
                let bit_index = y * width + x;
                proof {
                    lemma_byte_index_fits(width as int, height as int, bit_index as int);
                }
                let byte_index = bit_index / 8;
                let bit_pos = 7 - (bit_index % 8);
                let ghost old_result = result@;
                if byte_index < result.len() {
                    let pixel = page.bitmap.get_pixel(x, y);
                    if pixel {
                        let b = result[byte_index] | (1u8 << (bit_pos as u8));
                        result.set(byte_index, b);
                        assert forall|k: int, j: int|
                            0 <= k < result@.len() && 0 <= j < 8 implies #[trigger] byte_bit(result@[k], j)
                            == (8 * k + j < y * width + x + 1 && packed_bit(px, k, j)) by {
                            assert(bit_index == 8 * byte_index + bit_index % 8);
                            if k == byte_index {
                                lemma_bit_of_or(old_result[k], (bit_index % 8) as u8, j as u8);
                                assert(1u8 << (bit_pos as u8) == 1u8 << ((7 - ((bit_index % 8) as u8)) as u8));
                                assert(((7 - ((j as u8))) as u8) == ((7 - j) as u8));
                                assert(byte_bit(result@[k], j) == (j == bit_index % 8 || byte_bit(old_result[k], j)));
                                assert(byte_bit(old_result[k], j) == (8 * k + j < y * width + x && packed_bit(px, k, j)));
                                assert(px[bit_index as int]);
                                assert(j == bit_index % 8 ==> packed_bit(px, k, j));
                            } else {
                                assert(result@[k] == old_result[k]);
                            }
                        }
                    }
                }
                assert(byte_index < len);
                x += 1;
            }
            assert(y * width + width == (y + 1) * width) by (nonlinear_arith);
            y += 1;
        }
        assert(y * width == width * height) by (nonlinear_arith)
            requires
                y == height,
        ;
        Ok(result)
    }
}

/// Length of the rest of the data that a segment of unknown kind skips.
pub open spec fn skipped_len(d: Seq<u8>, q: int, h: SegmentHeader) -> int {
    vstd::math::min(h.segment_length as int, d.len() - q)
}

/// One segment of the global data stream at `p`: the position after it and what it adds
/// to the global segments.
pub open spec fn spec_global_step(d: Seq<u8>, p: int) -> Result<(int, Option<GlobalSummary>), Seq<char>> {
    match spec_segment_header(d, p) {
        Err(m) => Err(m),
        Ok((h, q)) => match h.segment_type {
            SegmentType::SymbolDictionary => match spec_symbol_dict(d, q) {
                Ok(((f, e, n), r)) => Ok((r, Some(GlobalSummary::Symbols(f, e, n)))),
                Err(m) => Err(m),
            },
            SegmentType::PatternDictionary => match spec_pattern_dict(d, q) {
                Ok(((f, w, hh, n), r)) => Ok((r, Some(GlobalSummary::Patterns(f, w, hh, n)))),
                Err(m) => Err(m),
            },
            _ => Ok((q + skipped_len(d, q, h), None)),
        },
    }
}

/// The segments that the global data stream from `p` on adds, and the error that stops
/// it, if any.
pub open spec fn spec_globals(d: Seq<u8>, p: int) -> (Seq<GlobalSummary>, Option<Seq<char>>)
    decreases d.len() - p,
{
    if p >= d.len() || p < 0 {
        (Seq::empty(), None)
    } else {
        match spec_global_step(d, p) {
            Err(m) => (Seq::empty(), Some(m)),
            Ok((q, g)) => if q <= p {
                (Seq::empty(), None)
            } else {
                let (rest, e) = spec_globals(d, q);
                match g {
                    Some(s) => (seq![s] + rest, e),
                    None => (rest, e),
                }
            },
        }
    }
}

/// The zero bytes that a blank page renders to.
pub open spec fn page_bytes(info: PageInformation) -> Seq<u8> {
    Seq::new((bytes_per_row(info.width as int) * info.height) as nat, |i: int| 0u8)
}

/// One segment of the page stream at `p`, with the page under construction: the position
/// after it, the page after it and the bytes it outputs.
pub open spec fn spec_page_step(d: Seq<u8>, p: int, page: Option<PageInformation>) -> Result<
    (int, Option<PageInformation>, Seq<u8>),
    Seq<char>,
> {
    match spec_segment_header(d, p) {
        Err(m) => Err(m),
        Ok((h, q)) => match h.segment_type {
            SegmentType::SymbolDictionary => match spec_symbol_dict(d, q) {
                Ok((_, r)) => Ok((r, page, Seq::empty())),
                Err(m) => Err(m),
            },
            SegmentType::IntermediateTextRegion => match spec_text_region(d, q) {
                Ok((_, r)) => Ok((r, page, Seq::empty())),
                Err(m) => Err(m),
            },
            SegmentType::ImmediateLosslessTextRegion => match spec_text_region(d, q) {
                Ok((_, r)) => Ok((r, page, Seq::empty())),
                Err(m) => Err(m),
            },
            SegmentType::PageInformation => match spec_page_info(d, q) {
                Ok((info, r)) => if fits(info.width as int, info.height as int) {
                    Ok((r, Some(info), Seq::empty()))
                } else {
                    Err(too_large_message())
                },
                Err(m) => Err(m),
            },
            SegmentType::EndOfPage => match page {
                Some(info) => Ok((q, None, page_bytes(info))),
                None => Ok((q, None, Seq::empty())),
            },
            SegmentType::GenericRegion => match spec_generic_region(d, q) {
                Ok((_, r)) => Ok((r, page, Seq::empty())),
                Err(m) => Err(m),
            },
            SegmentType::HalftoneRegion => match spec_halftone_region(d, q) {
                Ok((_, r)) => Ok((r, page, Seq::empty())),
                Err(m) => Err(m),
            },
            _ => Ok((q + skipped_len(d, q, h), page, Seq::empty())),
        },
    }
}

/// The bytes that the page stream from `p` on outputs, or the error that stops it.
pub open spec fn spec_segments(d: Seq<u8>, p: int, page: Option<PageInformation>) -> Result<Seq<u8>, Seq<char>>
    decreases d.len() - p,
{
    if p >= d.len() || p < 0 {
        Ok(Seq::empty())
    } else {
        match spec_page_step(d, p, page) {
            Err(m) => Err(m),
            Ok((q, pg, out)) => if q <= p {
                Ok(out)
            } else {
                match spec_segments(d, q, pg) {
                    Ok(rest) => Ok(out + rest),
                    Err(m) => Err(m),
                }
            },
        }
    }
}

/// What decoding the page stream `d` gives: the rendered pages, or the error that stops it.
pub open spec fn spec_decode(d: Seq<u8>) -> Result<Seq<u8>, Seq<char>> {
    match spec_file_header(d, 0) {
        Err(m) => Err(m),
        Ok((_, p)) => spec_segments(d, p, None),
    }
}

/// `prefix` followed by what `rest` gives.
pub open spec fn prepend(prefix: Seq<u8>, rest: Result<Seq<u8>, Seq<char>>) -> Result<Seq<u8>, Seq<char>> {
    match rest {
        Ok(r) => Ok(prefix + r),
        Err(m) => Err(m),
    }
}

/// The decoder's result `r` is what `s` says.
pub open spec fn decoded_as(r: FilterResult<Vec<u8>>, s: Result<Seq<u8>, Seq<char>>) -> bool {
    match s {
        Ok(bytes) => r matches Ok(v) && v@ == bytes,
        Err(m) => invalid_data_message(r) == Some(m),
    }
}

/// The global segments `after` are those `before` followed by ones matching `pushed`.
pub open spec fn globals_extended(before: Seq<GlobalSegment>, after: Seq<GlobalSegment>, pushed: Seq<GlobalSummary>) -> bool {
    &&& after.len() == before.len() + pushed.len()
    &&& forall|i: int| 0 <= i < before.len() ==> #[trigger] after[i] == before[i]
    &&& forall|i: int| 0 <= i < pushed.len() ==> #[trigger] after[before.len() + i].matches(pushed[i])
}

/// The page under construction is blank and its information is `info`.
pub open spec fn page_tracks(page: Option<Page>, info: Option<PageInformation>) -> bool {
    match page {
        Some(pg) => pg.wf() && pg.bitmap.is_blank() && info == Some(pg.info),
        None => info.is_none(),
    }
}

impl Jbig2Decoder {
    /// Reads the global data stream, keeping its symbol and pattern dictionaries.
    #[verifier::loop_isolation(false)]
    pub fn load_global_segments(&mut self, global_data: &[u8]) -> (r: FilterResult<()>)
        ensures
            final(self).config == old(self).config,
            globals_extended(
                old(self).global_segments@,
                final(self).global_segments@,
                spec_globals(global_data@, 0).0,
            ),
            match spec_globals(global_data@, 0).1 {
                None => r is Ok,
                Some(m) => invalid_data_message(r) == Some(m),
            },
    {
        let ghost d = global_data@;
        let ghost before = self.global_segments@;
        let ghost mut pushed: Seq<GlobalSummary> = Seq::empty();
        let mut reader = Jbig2Reader::new(global_data);
        while !reader.is_at_end()
            invariant
                reader.wf(),
                reader.data@ == d,
                self.config == old(self).config,
                globals_extended(before, self.global_segments@, pushed),
                spec_globals(d, 0).0 == pushed + spec_globals(d, reader.position as int).0,
                spec_globals(d, 0).1 == spec_globals(d, reader.position as int).1,
            decreases d.len() - reader.position,
        {
            let ghost p = reader.position as int;
            let segment = match reader.read_segment_header() {
                Ok(h) => h,
                Err(e) => return Err(e),
            };
            match segment.segment_type {
                SegmentType::SymbolDictionary => {
                    let symbol_dict = match self.decode_symbol_dictionary(&mut reader, &segment) {
                        Ok(sd) => sd,
                        Err(e) => return Err(e),
                    };
                    let ghost s = spec_global_step(d, p);
                    self.global_segments.push(GlobalSegment::SymbolDictionary(symbol_dict));
                    proof {
                        let g = s->Ok_0.1->Some_0;
                        assert(spec_globals(d, p).0 == seq![g] + spec_globals(d, reader.position as int).0);
                        pushed = pushed + seq![g];
                        assert(self.global_segments@[before.len() + pushed.len() - 1].matches(g));
                    }
                },
                SegmentType::PatternDictionary => {
                    let pattern_dict = match self.decode_pattern_dictionary(&mut reader, &segment) {
                        Ok(pd) => pd,
                        Err(e) => return Err(e),
                    };
                    let ghost s = spec_global_step(d, p);
                    self.global_segments.push(GlobalSegment::PatternDictionary(pattern_dict));
                    proof {
                        let g = s->Ok_0.1->Some_0;
                        assert(spec_globals(d, p).0 == seq![g] + spec_globals(d, reader.position as int).0);
                        pushed = pushed + seq![g];
                        assert(self.global_segments@[before.len() + pushed.len() - 1].matches(g));
                    }
                },
                _ => {
                    match reader.skip_segment_data(&segment) {
                        Ok(_) => {},
                        Err(e) => return Err(e),
                    }
                },
            }
            proof {
                assert(pushed + spec_globals(d, reader.position as int).0 =~= spec_globals(d, 0).0);
            }
        }
        Ok(())
    }

    /// Decodes JBIG2 data, after reading the optional global data stream, into the
    /// rendered bytes of every page that an end-of-page segment closes.
    #[verifier::loop_isolation(false)]
    #[verifier::rlimit(60)]
    pub fn decode(&mut self, data: &[u8], globals: Option<&[u8]>) -> (r: FilterResult<Vec<u8>>)
        ensures
            final(self).config == old(self).config,
            globals_extended(
                old(self).global_segments@,
                final(self).global_segments@,
                match globals {
                    Some(g) => spec_globals(g@, 0).0,
                    None => Seq::empty(),
                },
            ),
            match globals {
                Some(g) => match spec_globals(g@, 0).1 {
                    Some(m) => invalid_data_message(r) == Some(m),
                    None => decoded_as(r, spec_decode(data@)),
                },
                None => decoded_as(r, spec_decode(data@)),
            },
    {
        if let Some(global_data) = globals {
            match self.load_global_segments(global_data) {
                Ok(_) => {},
                Err(e) => return Err(e),
            }
        } else {
            assert(globals_extended(old(self).global_segments@, self.global_segments@, Seq::empty()));
        }
        let ghost d = data@;
        let ghost gs = self.global_segments@;
        let mut reader = Jbig2Reader::new(data);
        let _file_header = match reader.read_file_header() {
            Ok(h) => h,
            Err(e) => return Err(e),
        };
        let mut page_data: Vec<u8> = Vec::new();
        let mut current_page: Option<Page> = None;
        let ghost mut page_info: Option<PageInformation> = None;
        assert(page_data@ + Seq::<u8>::empty() =~= Seq::<u8>::empty());
        while !reader.is_at_end()
            invariant
                reader.wf(),
                reader.data@ == d,
                page_tracks(current_page, page_info),
                self.config == old(self).config,
                self.global_segments@ == gs,
                spec_decode(d) == prepend(page_data@, spec_segments(d, reader.position as int, page_info)),
            decreases d.len() - reader.position,
        {
            let ghost p = reader.position as int;
            let ghost pd0 = page_data@;
            let ghost pi0 = page_info;
            let segment = match reader.read_segment_header() {
                Ok(h) => h,
                Err(e) => return Err(e),
            };
            let ghost step = spec_page_step(d, p, page_info);
            match segment.segment_type {
                SegmentType::SymbolDictionary => {
                    let symbol_dict = match self.decode_symbol_dictionary(&mut reader, &segment) {
                        Ok(sd) => sd,
                        Err(e) => return Err(e),
                    };
                    self.register_symbol_dictionary(symbol_dict);
                },
                SegmentType::IntermediateTextRegion => {
                    let text_region = match self.decode_text_region(&mut reader, &segment) {
                        Ok(t) => t,
                        Err(e) => return Err(e),
                    };
                    match self.apply_text_region(&mut current_page, text_region) {
                        Ok(_) => {},
                        Err(e) => return Err(e),
                    }
                },
                SegmentType::ImmediateLosslessTextRegion => {
                    let text_region = match self.decode_text_region(&mut reader, &segment) {
                        Ok(t) => t,
                        Err(e) => return Err(e),
                    };
                    match self.apply_text_region(&mut current_page, text_region) {
                        Ok(_) => {},
                        Err(e) => return Err(e),
                    }
                },
                SegmentType::PageInformation => {
                    let info = match self.decode_page_information(&mut reader, &segment) {
                        Ok(i) => i,
                        Err(e) => return Err(e),
                    };
                    let page = match self.create_page(info) {
                        Ok(pg) => pg,
                        Err(e) => return Err(e),
                    };
                    current_page = Some(page);
                    proof {
                        page_info = Some(info);
                    }
                },
                SegmentType::EndOfPage => {
                    if let Some(page) = current_page.take() {
                        let ghost info = page.info;
                        let mut bytes = match self.render_page_to_bytes(page) {
                            Ok(b) => b,
                            Err(e) => return Err(e),
                        };
                        assert forall|k: int| 0 <= k < bytes@.len() implies bytes@[k] == 0u8 by {
                            assert forall|j: int| 0 <= j < 8 implies !#[trigger] byte_bit(bytes@[k], j) by {
                                assert(byte_bit(bytes@[k], j) == packed_bit(page.bitmap.data@, k, j));
                            }
                            lemma_no_bits_is_zero(bytes@[k]);
                        }
                        assert(bytes@ =~= page_bytes(info));
                        let ghost before = page_data@;
                        page_data.append(&mut bytes);
                        assert(page_data@ == before + page_bytes(info));
                    }
                    proof {
                        page_info = None;
                    }
                },
                SegmentType::GenericRegion => {
                    let generic_region = match self.decode_generic_region(&mut reader, &segment) {
                        Ok(g) => g,
                        Err(e) => return Err(e),
                    };
                    match self.apply_generic_region(&mut current_page, generic_region) {
                        Ok(_) => {},
                        Err(e) => return Err(e),
                    }
                },
                SegmentType::HalftoneRegion => {
                    let halftone_region = match self.decode_halftone_region(&mut reader, &segment) {
                        Ok(hr) => hr,
                        Err(e) => return Err(e),
                    };
                    match self.apply_halftone_region(&mut current_page, halftone_region) {
                        Ok(_) => {},
                        Err(e) => return Err(e),
                    }
                },
                _ => {
                    match reader.skip_segment_data(&segment) {
                        Ok(_) => {},
                        Err(e) => return Err(e),
                    }
                },
            }
            proof {
                assert(step matches Ok((q, pg, out)) && q == reader.position && pg == page_info);
                let out = step->Ok_0.2;
                let q = step->Ok_0.0;
                assert(page_data@ =~= pd0 + out);
                assert(q > p);
                assert(spec_segments(d, p, pi0) == prepend(out, spec_segments(d, q, page_info)));
                match spec_segments(d, q, page_info) {
                    Ok(rest) => {
                        assert(pd0 + (out + rest) =~= page_data@ + rest);
                    },
                    Err(_) => {},
                }
            }
        }
        Ok(page_data)
    }
}

} // verus!
