//! The header of an ICC colour profile.

use crate::text::{append_decimal, decimal, push_char};
use vstd::prelude::*;

verus! {

/// The header fields of an ICC profile.
#[derive(Debug, Clone)]
pub struct IccProfileInfo {
    pub size: u32,
    pub cmm_type: String,
    pub version: String,
    pub device_class: String,
    pub color_space: String,
    pub pcs: String,
    pub signature: String,
}

/// A tag byte as a character: printable ASCII other than space as itself, anything else
/// as `?`.
pub open spec fn tag_char(b: u8) -> char {
    if 0x21 <= b <= 0x7E {
        b as char
    } else {
        '?'
    }
}

/// The four-character tag at `data[p..p + 4]`.
pub open spec fn tag_text(data: Seq<u8>, p: int) -> Seq<char> {
    seq![tag_char(data[p]), tag_char(data[p + 1]), tag_char(data[p + 2]), tag_char(data[p + 3])]
}

/// `major.minor` from the version byte: its high and low four bits.
pub open spec fn version_text(b: u8) -> Seq<char> {
    decimal((b / 16) as nat) + seq!['.'] + decimal((b % 16) as nat)
}

/// The big-endian value of `data[p..p + 4]`.
pub open spec fn be_u32(data: Seq<u8>, p: int) -> nat {
    ((data[p] as nat * 256 + data[p + 1] as nat) * 256 + data[p + 2] as nat) * 256 + data[
        p + 3
    ] as nat
}

fn read_u32_be(bytes: &[u8], p: usize) -> (r: u32)
    requires
        p + 4 <= bytes@.len(),
    ensures
        r == be_u32(bytes@, p as int),
{
    let b0 = bytes[p] as u32;
    let b1 = bytes[p + 1] as u32;
    let b2 = bytes[p + 2] as u32;
    let b3 = bytes[p + 3] as u32;
    let r = (b0 << 24u32) | (b1 << 16u32) | (b2 << 8u32) | b3;
    assert(r == ((b0 * 256 + b1) * 256 + b2) * 256 + b3) by (bit_vector)
        requires
            b0 < 256,
            b1 < 256,
            b2 < 256,
            b3 < 256,
            r == (b0 << 24u32) | (b1 << 16u32) | (b2 << 8u32) | b3,
    ;
    r
}

fn tag_char_of(b: u8) -> (c: char)
    ensures
        c == tag_char(b),
{
    if 0x21 <= b && b <= 0x7E {
        b as char
    } else {
        '?'
    }
}

fn read_tag(bytes: &[u8], p: usize) -> (r: String)
    requires
        p + 4 <= bytes@.len(),
        p + 4 <= usize::MAX,
    ensures
        r@ == tag_text(bytes@, p as int),
{
    let mut s = String::new();
    let mut k: usize = 0;
    while k < 4
        invariant
            k <= 4,
            p + 4 <= bytes@.len(),
            p + 4 <= usize::MAX,
            s@ == Seq::new(k as nat, |i: int| tag_char(bytes@[p + i])),
        decreases 4 - k,
    {
        let c = tag_char_of(bytes[p + k]);
        push_char(&mut s, c);
        assert(s@ =~= Seq::new((k + 1) as nat, |i: int| tag_char(bytes@[p + i])));
        k += 1;
    }
    assert(s@ =~= tag_text(bytes@, p as int));
    s
}

/// Reads the header of an ICC profile; `None` when the data is shorter than the 128-byte
/// header.
pub fn parse_icc_profile(data: &[u8]) -> (r: Option<IccProfileInfo>)
    ensures
        data@.len() < 128 ==> r is None,
        data@.len() >= 128 ==> (r matches Some(info) && {
            &&& info.size == be_u32(data@, 0)
            &&& info.cmm_type@ == tag_text(data@, 4)
            &&& info.version@ == version_text(data@[8])
            &&& info.device_class@ == tag_text(data@, 12)
            &&& info.color_space@ == tag_text(data@, 16)
            &&& info.pcs@ == tag_text(data@, 20)
            &&& info.signature@ == tag_text(data@, 36)
        }),
{
    if data.len() < 128 {
        return None;
    }
    let size = read_u32_be(data, 0);
    let cmm_type = read_tag(data, 4);
    let mut version = String::new();
    append_decimal(&mut version, (data[8] >> 4u8) as u64);
    push_char(&mut version, '.');
    append_decimal(&mut version, (data[8] & 0x0Fu8) as u64);
    let v = data[8];
    assert(v >> 4u8 == v / 16 && v & 0x0Fu8 == v % 16) by (bit_vector);
    assert(version@ =~= version_text(data@[8]));
    let device_class = read_tag(data, 12);
    let color_space = read_tag(data, 16);
    let pcs = read_tag(data, 20);
    let signature = read_tag(data, 36);
    Some(IccProfileInfo { size, cmm_type, version, device_class, color_space, pcs, signature })
}

} // verus!
