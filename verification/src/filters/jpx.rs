//! Extraction of the JPEG 2000 codestream from JPX data.

use crate::byteseq::{bytes_equal_at, copy_range};
use crate::filters::{be_value, invalid_data_message, FilterError};
use vstd::prelude::*;

verus! {

/// The JP2 signature box payload.
pub open spec fn jp2_signature_payload() -> Seq<u8> {
    seq![0x0Du8, 0x0Au8, 0x87u8, 0x0Au8]
}

/// Box type of the signature box, `jP  `.
pub open spec fn signature_box_type() -> Seq<u8> {
    seq![0x6Au8, 0x50u8, 0x20u8, 0x20u8]
}

/// Box type of a contiguous codestream box, `jp2c`.
pub open spec fn codestream_box_type() -> Seq<u8> {
    seq![0x6Au8, 0x70u8, 0x32u8, 0x63u8]
}

/// What the boxes from `pos` on hold: whether a signature box was seen, the concatenated
/// codestream payloads and their number; or the error that a malformed box raises.
pub open spec fn spec_jp2_boxes(d: Seq<u8>, pos: int) -> Result<(bool, Seq<u8>, nat), Seq<char>>
    decreases d.len() - pos,
{
    if pos < 0 || pos + 8 > d.len() {
        Ok((false, Seq::empty(), 0))
    } else {
        let ty = d.subrange(pos + 4, pos + 8);
        let header = spec_box_header(d, pos);
        match header {
            Err(m) => Err(m),
            Ok((start, box_len, header_extra)) => if box_len < header_extra {
                Err("JP2 box length invalid"@)
            } else if start + box_len - header_extra > d.len() {
                Err("JP2 box length exceeds buffer"@)
            } else {
                let end = start + box_len - header_extra;
                let payload = d.subrange(start, end);
                if ty == signature_box_type() && payload != jp2_signature_payload() {
                    Err("JP2 signature box invalid"@)
                } else {
                    match spec_jp2_boxes(d, end) {
                        Err(m) => Err(m),
                        Ok((saw, streams, count)) => if ty == signature_box_type() {
                            Ok((true, streams, count))
                        } else if ty == codestream_box_type() {
                            Ok((saw, payload + streams, count + 1))
                        } else {
                            Ok((saw, streams, count))
                        },
                    }
                }
            },
        }
    }
}

/// Header of the box at `pos`: where its payload starts, the box length and the header
/// length that the box length includes.
pub open spec fn spec_box_header(d: Seq<u8>, pos: int) -> Result<(int, int, int), Seq<char>> {
    let length = be_value(d, pos, 4);
    let p = pos + 8;
    if length == 1 {
        if p + 8 > d.len() {
            Err("JP2 box missing extended length"@)
        } else if be_value(d, p, 8) < 16 {
            Err("JP2 box extended length invalid"@)
        } else {
            Ok((p + 8, (be_value(d, p, 8) as u64) as usize as int, 16int))
        }
    } else if length == 0 {
        Ok((p, d.len() - p + 8, 8int))
    } else {
        Ok((p, length as int, 8int))
    }
}

/// What extracting the codestream of `d` gives.
pub open spec fn spec_jpx_codestream(d: Seq<u8>) -> Result<Seq<u8>, Seq<char>> {
    if d.len() < 2 {
        Err("JPX data too short"@)
    } else if d[0] == 0xFF && d[1] == 0x4F {
        Ok(d)
    } else if d.len() < 12 {
        Err("JP2 container too short"@)
    } else {
        match spec_jp2_boxes(d, 0) {
            Err(m) => Err(m),
            Ok((saw, streams, count)) => if !saw {
                Err("JP2 signature not found"@)
            } else if count == 0 {
                Err("JP2 codestream not found"@)
            } else {
                Ok(streams)
            },
        }
    }
}

fn be_u32_at(data: &[u8], pos: usize) -> (r: u32)
    requires
        pos + 4 <= data@.len(),
    ensures
        r as int == be_value(data@, pos as int, 4),
{
    let b1 = data[pos] as u32;
    let b2 = data[pos + 1] as u32;
    let b3 = data[pos + 2] as u32;
    let b4 = data[pos + 3] as u32;
    proof {
        reveal_with_fuel(be_value, 5);
    }
    assert((b1 << 24u32) | (b2 << 16u32) | (b3 << 8u32) | b4 == ((b1 * 256 + b2) * 256 + b3) * 256
        + b4) by (bit_vector)
        requires
            b1 < 256,
            b2 < 256,
            b3 < 256,
            b4 < 256,
    ;
    (b1 << 24) | (b2 << 16) | (b3 << 8) | b4
}

fn be_u64_at(data: &[u8], pos: usize) -> (r: u64)
    requires
        pos + 8 <= data.len(),
    ensures
        r as int == be_value(data@, pos as int, 8),
{
    let mut v: u64 = 0;
    let mut i: usize = 0;
    proof {
        reveal_with_fuel(pow256, 9);
        assert(pow256(8) == 0x1_0000_0000_0000_0000);
    }
    while i < 8
        invariant
            pos + 8 <= data.len(),
            pow256(8) == 0x1_0000_0000_0000_0000,
            i <= 8,
            v as int == be_value(data@, pos as int, i as nat),
            v < pow256(i as nat),
        decreases 8 - i,
    {
        let b = data[pos + i] as u64;
        proof {
            lemma_pow256_step(i as nat);
        }
        assert(v * 256 + b < pow256((i + 1) as nat)) by (nonlinear_arith)
            requires
                v < pow256(i as nat),
                b < 256,
                pow256((i + 1) as nat) == pow256(i as nat) * 256,
        ;
        assert(pow256((i + 1) as nat) <= pow256(8)) by {
            lemma_pow256_mono((i + 1) as nat, 8);
        }
        v = v * 256 + b;
        proof {
            reveal_with_fuel(be_value, 2);
        }
        i += 1;
    }
    v
}

/// `256` to the power `n`.
pub open spec fn pow256(n: nat) -> nat
    decreases n,
{
    if n == 0 {
        1
    } else {
        256 * pow256((n - 1) as nat)
    }
}

proof fn lemma_pow256_step(n: nat)
    ensures
        pow256(n + 1) == pow256(n) * 256,
{
}

proof fn lemma_pow256_mono(a: nat, b: nat)
    requires
        a <= b,
    ensures
        pow256(a) <= pow256(b),
    decreases b - a,
{
    if a < b {
        lemma_pow256_mono(a, (b - 1) as nat);
    }
}

fn concat_all(parts: &Vec<Vec<u8>>) -> (r: Vec<u8>)
    ensures
        r@ == parts@.map_values(|v: Vec<u8>| v@).flatten(),
{
    let mut out: Vec<u8> = Vec::new();
    let mut i: usize = 0;
    while i < parts.len()
        invariant
            i <= parts@.len(),
            out@ == parts@.subrange(0, i as int).map_values(|v: Vec<u8>| v@).flatten(),
        decreases parts@.len() - i,
    {
        let part = &parts[i];
        let mut j: usize = 0;
        let ghost before = out@;
        while j < part.len()
            invariant
                j <= part@.len(),
                out@ == before + part@.subrange(0, j as int),
            decreases part@.len() - j,
        {
            out.push(part[j]);
            assert(out@ =~= before + part@.subrange(0, j + 1));
            j += 1;
        }
        proof {
            let s = parts@.subrange(0, i + 1).map_values(|v: Vec<u8>| v@);
            assert(parts@.subrange(0, i as int).map_values(|v: Vec<u8>| v@) =~= s.drop_last());
            s.drop_last().lemma_flatten_push(s.last());
            assert(s.drop_last().push(s.last()) =~= s);
            assert(part@.subrange(0, j as int) =~= part@);
        }
        i += 1;
    }
    assert(parts@.subrange(0, i as int) =~= parts@);
    out
}

fn read_box_header(data: &[u8], pos: usize) -> (r: Result<(usize, usize, usize), FilterError>)
    requires
        pos + 8 <= data.len(),
    ensures
        match spec_box_header(data@, pos as int) {
            Ok((start, box_len, extra)) => r matches Ok((s, b, e)) && s == start && b == box_len && e
                == extra && s <= data@.len(),
            Err(m) => invalid_data_message(r) == Some(m),
        },
{
    let length = be_u32_at(data, pos);
    let p = pos + 8;
    if length == 1 {
        if data.len() - p < 8 {
            return Err(FilterError::InvalidData("JP2 box missing extended length".to_string()));
        }
        let ext_len = be_u64_at(data, p);
        if ext_len < 16 {
            return Err(FilterError::InvalidData("JP2 box extended length invalid".to_string()));
        }
        Ok((p + 8, ext_len as usize, 16))
    } else if length == 0 {
        let remaining = data.len() - p;
        Ok((p, remaining + 8, 8))
    } else {
        Ok((p, length as usize, 8))
    }
}

/// Messages of the errors in `r`, if it is an error.
pub open spec fn extracted_as(r: Result<Vec<u8>, FilterError>, s: Result<Seq<u8>, Seq<char>>) -> bool {
    match s {
        Ok(bytes) => r matches Ok(v) && v@ == bytes,
        Err(m) => invalid_data_message(r) == Some(m),
    }
}

/// Data that already is a codestream (it starts with the SOC marker `FF 4F`) comes back
/// unchanged, SOC marker included, whatever follows; data too short to hold a marker is
/// refused.
pub proof fn lemma_raw_codestream_unchanged(d: Seq<u8>)
    ensures
        d.len() >= 2 && d[0] == 0xFF && d[1] == 0x4F ==> spec_jpx_codestream(d) == Ok::<
            Seq<u8>,
            Seq<char>,
        >(d),
        d.len() < 2 ==> spec_jpx_codestream(d) is Err,
{
}

/// Extracts the JPEG 2000 codestream: raw codestreams are returned as they are; JP2
/// containers must hold a valid signature box and at least one codestream box, whose
/// payloads are concatenated.
#[verifier::loop_isolation(false)]
#[verifier::rlimit(40)]
pub fn decode_jpx_to_codestream(data: &[u8]) -> (r: Result<Vec<u8>, FilterError>)
    ensures
        extracted_as(r, spec_jpx_codestream(data@)),
        data@.len() >= 2 && data@[0] == 0xFF && data@[1] == 0x4F ==> (r matches Ok(v) && v@
            == data@),
{
    if data.len() < 2 {
        return Err(FilterError::InvalidData("JPX data too short".to_string()));
    }
    if data.len() >= 2 && data[0] == 0xFF && data[1] == 0x4F {
        let all = copy_range(data, 0, data.len());
        assert(all@ =~= data@);
        return Ok(all);
    }
    if data.len() < 12 {
        return Err(FilterError::InvalidData("JP2 container too short".to_string()));
    }
    let ghost d = data@;
    let mut pos: usize = 0;
    let mut codestreams: Vec<Vec<u8>> = Vec::new();
    let mut saw_signature = false;
    let sig_type: [u8; 4] = [0x6A, 0x50, 0x20, 0x20];
    let cs_type: [u8; 4] = [0x6A, 0x70, 0x32, 0x63];
    let sig_payload: [u8; 4] = [0x0D, 0x0A, 0x87, 0x0A];
    assert(sig_type@ == signature_box_type());
    assert(cs_type@ == codestream_box_type());
    assert(sig_payload@ == jp2_signature_payload());
    while data.len() - pos >= 8
        invariant
            pos <= data@.len(),
            sig_type@ == signature_box_type(),
            cs_type@ == codestream_box_type(),
            sig_payload@ == jp2_signature_payload(),
            match spec_jp2_boxes(d, 0) {
                Err(m) => spec_jp2_boxes(d, pos as int) == Err::<(bool, Seq<u8>, nat), Seq<char>>(m),
                Ok((saw, streams, count)) => spec_jp2_boxes(d, pos as int) matches Ok((saw2, streams2, count2))
                    && saw == (saw_signature || saw2)
                    && streams == codestreams@.map_values(|v: Vec<u8>| v@).flatten() + streams2
                    && count == codestreams@.len() + count2,
            },
        decreases data@.len() - pos,
    {
        let ghost pos0 = pos as int;
        let type_pos = pos + 4;
        let (start, box_len, header_extra) = match read_box_header(data, pos) {
            Ok(h) => h,
            Err(e) => return Err(e),
        };
        pos = start;
        if box_len < header_extra {
            return Err(FilterError::InvalidData("JP2 box length invalid".to_string()));
        }
        let payload_len = box_len - header_extra;
        if payload_len > data.len() - pos {
            return Err(FilterError::InvalidData("JP2 box length exceeds buffer".to_string()));
        }
        let payload_start = pos;
        pos += payload_len;
        let is_sig = bytes_equal_at(data, type_pos, &sig_type);
        let is_cs = bytes_equal_at(data, type_pos, &cs_type);
        let ghost ty = d.subrange(type_pos as int, type_pos + 4);
        assert(is_sig == (ty == signature_box_type()));
        assert(is_cs == (ty == codestream_box_type()));
        if is_sig {
            let ok = payload_len == 4 && bytes_equal_at(data, payload_start, &sig_payload);
            assert(ok == (d.subrange(payload_start as int, pos as int) == jp2_signature_payload()));
            if !ok {
                return Err(FilterError::InvalidData("JP2 signature box invalid".to_string()));
            }
            saw_signature = true;
        } else if is_cs {
            let ghost before = codestreams@;
            codestreams.push(copy_range(data, payload_start, pos));
            proof {
                let mapped = before.map_values(|v: Vec<u8>| v@);
                assert(codestreams@.map_values(|v: Vec<u8>| v@) =~= mapped.push(d.subrange(payload_start as int, pos as int)));
                mapped.lemma_flatten_push(d.subrange(payload_start as int, pos as int));
            }
        }
        proof {
            assert(spec_jp2_boxes(d, pos0) == match spec_jp2_boxes(d, pos as int) {
                Err(m) => Err(m),
                Ok((saw, streams, count)) => if ty == signature_box_type() {
                    Ok((true, streams, count))
                } else if ty == codestream_box_type() {
                    Ok((saw, d.subrange(payload_start as int, pos as int) + streams, count + 1))
                } else {
                    Ok((saw, streams, count))
                },
            });
            match spec_jp2_boxes(d, pos as int) {
                Ok((_, streams2, _)) => {
                    let m0 = codestreams@.map_values(|v: Vec<u8>| v@).flatten();
                    if is_cs {
                        assert(m0 + streams2 =~= (m0.subrange(0, m0.len() - (pos - payload_start))) + (d.subrange(payload_start as int, pos as int) + streams2));
                    }
                },
                Err(_) => {},
            }
        }
    }
    if !saw_signature {
        return Err(FilterError::InvalidData("JP2 signature not found".to_string()));
    }
    if codestreams.len() == 0 {
        return Err(FilterError::InvalidData("JP2 codestream not found".to_string()));
    }
    Ok(concat_all(&codestreams))
}

} // verus!
