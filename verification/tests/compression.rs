use pdf_ast::compression::{get_algorithm_candidates, has_repetitive_patterns, select_optimal_algorithm, CompressionAlgorithm};
use lzw::BitWriter;
use pdf_ast::compression::lzw::{encode_lzw_pdf, lzw_code_sequence, pack_codes_msb};
use pdf_ast::compression::{compress_run_length, ContentAnalyzer, ContentType};

fn rle_decode(b: &[u8]) -> Vec<u8> {
    let mut out = Vec::new();
    let mut i = 0;
    while i < b.len() {
        let l = b[i] as usize;
        if l == 128 {
            break;
        } else if l < 128 {
            out.extend_from_slice(&b[i + 1..i + 2 + l]);
            i += l + 2;
        } else {
            for _ in 0..(257 - l) {
                out.push(b[i + 1]);
            }
            i += 2;
        }
    }
    out
}

#[test]
fn run_length_exact_output() {
    assert_eq!(compress_run_length(b""), vec![128]);
    assert_eq!(compress_run_length(b"AAAB"), vec![254, b'A', 0, b'B', 128]);
    assert_eq!(compress_run_length(b"ABCC"), vec![1, b'A', b'B', 255, b'C', 128]);
    assert_eq!(compress_run_length(b"ABC"), vec![2, b'A', b'B', b'C', 128]);
}

#[test]
fn run_length_caps_runs_at_128() {
    let data = vec![7u8; 300];
    let out = compress_run_length(&data);
    assert_eq!(out, vec![129, 7, 129, 7, 213, 7, 128]);
    assert_eq!(rle_decode(&out), data);
}

#[test]
fn run_length_roundtrip() {
    let mut data = Vec::new();
    for i in 0..2000u32 {
        data.push(((i * 7919) % 13) as u8);
        if i % 17 == 0 {
            data.extend_from_slice(&[9, 9, 9, 9]);
        }
    }
    assert_eq!(rle_decode(&compress_run_length(&data)), data);
}

struct BitReader<'a> {
    data: &'a [u8],
    pos: usize,
}

impl<'a> BitReader<'a> {
    fn read(&mut self, n: u32) -> Option<u32> {
        let mut v = 0u32;
        for _ in 0..n {
            let byte = *self.data.get(self.pos / 8)?;
            let bit = (byte >> (7 - (self.pos % 8))) & 1;
            v = (v << 1) | bit as u32;
            self.pos += 1;
        }
        Some(v)
    }
}

fn lzw_decode(data: &[u8], early_change: bool) -> Vec<u8> {
    let mut reader = BitReader { data, pos: 0 };
    let mut width = 9u32;
    let mut dict: Vec<Vec<u8>> = (0..256u32).map(|b| vec![b as u8]).collect();
    dict.push(Vec::new());
    dict.push(Vec::new());
    let mut written = 0u32;
    let mut prev: Option<Vec<u8>> = None;
    let mut out = Vec::new();
    loop {
        let code = match reader.read(width) {
            Some(c) => c,
            None => break,
        };
        if code == 256 {
            dict.truncate(258);
            width = 9;
            written = 0;
            prev = None;
            continue;
        }
        if code == 257 {
            break;
        }
        let entry = if (code as usize) < dict.len() {
            dict[code as usize].clone()
        } else {
            let p = prev.clone().unwrap();
            let mut e = p.clone();
            e.push(p[0]);
            e
        };
        out.extend_from_slice(&entry);
        if let Some(p) = prev {
            if dict.len() < 4096 {
                let mut e = p.clone();
                e.push(entry[0]);
                dict.push(e);
            }
        }
        written += 1;
        let next_code = 258 + written;
        let threshold = (1u32 << width) - 1 - if early_change { 1 } else { 0 };
        if next_code == threshold && width < 12 {
            width += 1;
        }
        prev = Some(entry);
    }
    out
}

#[test]
fn test_lzw_encode_decode_roundtrip() {
    let data = b"TOBEORNOTTOBEORTOBEORNOT";
    let compressed = encode_lzw_pdf(data, true).expect("LZW encode failed");
    let decoded = lzw_decode(&compressed, true);
    assert_eq!(decoded, data);
}

#[test]
fn lzw_exact_small_streams() {
    assert_eq!(encode_lzw_pdf(b"", true).unwrap(), vec![0x80, 0x40, 0x40]);
    assert_eq!(encode_lzw_pdf(b"A", true).unwrap(), vec![0x80, 0x10, 0x60, 0x20]);
    let aligned = encode_lzw_pdf(b"ABCDEF", false).unwrap();
    assert_eq!(aligned.len(), 10);
    assert_eq!(aligned[9], 0);
}

#[test]
fn lzw_roundtrip_with_wider_codes() {
    let mut data = Vec::new();
    let mut x = 12345u32;
    for _ in 0..20000 {
        x = x.wrapping_mul(1103515245).wrapping_add(12345);
        data.push(((x >> 16) % 40) as u8);
    }
    for early in [true, false] {
        let compressed = encode_lzw_pdf(&data, early).unwrap();
        assert_eq!(lzw_decode(&compressed, early), data);
    }
}

#[test]
fn content_classification() {
    let a = ContentAnalyzer::new();
    assert_eq!(a.analyze_content(b"\xFF\xD8\xFF\xE0rest"), ContentType::Image);
    assert_eq!(a.analyze_content(b"BT /F1 12 Tf (Hello) Tj ET"), ContentType::Text);
    let mut bin = vec![0x80u8; 200];
    bin.extend_from_slice(b"m m m ");
    assert_eq!(a.analyze_content(&bin), ContentType::Vector);
    let mut structured = vec![0xC0u8; 100];
    structured.extend_from_slice(b"<<>>[]/");
    assert_eq!(a.analyze_content(&structured), ContentType::Structured);
    assert_eq!(a.analyze_content(&[0xC0u8; 300]), ContentType::Binary);
    assert_eq!(a.analyze_content(b""), ContentType::Binary);
}

#[test]
fn repetitive_data_needs_a_frequent_byte_in_the_first_kilobyte() {
    assert!(!has_repetitive_patterns(&[7u8; 999]));
    assert!(has_repetitive_patterns(&[7u8; 1000]));
    let spread: Vec<u8> = (0..1000).map(|i| (i % 256) as u8).collect();
    assert!(!has_repetitive_patterns(&spread));
    let mut mixed = spread.clone();
    for i in 0..101 {
        mixed[i * 9] = 0xAB;
    }
    assert!(has_repetitive_patterns(&mixed));
}

#[test]
fn algorithms_follow_the_content() {
    assert_eq!(select_optimal_algorithm(b"x", &ContentType::Image), CompressionAlgorithm::DCT);
    assert_eq!(select_optimal_algorithm(b"x", &ContentType::Binary), CompressionAlgorithm::LZW);
    assert_eq!(select_optimal_algorithm(b"x", &ContentType::Text), CompressionAlgorithm::Flate);
    assert_eq!(select_optimal_algorithm(&[1u8; 2000], &ContentType::Unknown), CompressionAlgorithm::LZW);
    assert_eq!(select_optimal_algorithm(b"x", &ContentType::Unknown), CompressionAlgorithm::Flate);
    let pref = vec![CompressionAlgorithm::RunLength];
    assert_eq!(
        get_algorithm_candidates(&pref, &ContentType::Image),
        vec![CompressionAlgorithm::DCT, CompressionAlgorithm::JPX, CompressionAlgorithm::RunLength]
    );
    assert_eq!(
        get_algorithm_candidates(&pref, &ContentType::Structured),
        vec![CompressionAlgorithm::Flate, CompressionAlgorithm::RunLength]
    );
    assert_eq!(get_algorithm_candidates(&pref, &ContentType::Vector), pref);
}

use pdf_ast::compression::{flate_level, standard_compress_bytes, CompressionLevel};

#[test]
fn standard_compression_by_method() {
    let data = b"BT /F1 12 Tf (Hello Hello Hello Hello) Tj ET".to_vec();
    let flate = standard_compress_bytes(&data, CompressionAlgorithm::Flate, CompressionLevel::Best).unwrap();
    assert_ne!(flate, data);
    let mut decoder = flate2::read::ZlibDecoder::new(&flate[..]);
    let mut back = Vec::new();
    std::io::Read::read_to_end(&mut decoder, &mut back).unwrap();
    assert_eq!(back, data);
    let rle = standard_compress_bytes(&[7, 7, 7, 7], CompressionAlgorithm::RunLength, CompressionLevel::Fast).unwrap();
    assert_eq!(rle, vec![253, 7, 128]);
    let lzw = standard_compress_bytes(&data, CompressionAlgorithm::LZW, CompressionLevel::Balanced).unwrap();
    assert_eq!(lzw, pdf_ast::compression::lzw::encode_lzw_pdf(&data, true).unwrap());
    assert_eq!(
        standard_compress_bytes(&data, CompressionAlgorithm::DCT, CompressionLevel::Balanced).unwrap_err(),
        "Unsupported compression algorithm: DCT"
    );
    assert_eq!(
        standard_compress_bytes(&data, CompressionAlgorithm::Custom(12), CompressionLevel::Balanced).unwrap_err(),
        "Unsupported compression algorithm: Custom(12)"
    );
    assert_eq!(flate_level(CompressionLevel::Fast), 1);
    assert_eq!(flate_level(CompressionLevel::Best), 9);
    assert_eq!(flate_level(CompressionLevel::Adaptive), 6);
}

fn msb_writer_pack(codes: &[(u16, u8)]) -> Vec<u8> {
    let mut out = Vec::new();
    {
        let mut w = lzw::MsbWriter::new(&mut out);
        for &(v, n) in codes {
            w.write_bits(v, n).unwrap();
        }
        std::io::Write::flush(&mut w).unwrap();
    }
    out
}

#[test]
fn lzw_bit_packing_matches_msb_writer() {
    let mut long = Vec::new();
    for i in 0..3000u32 {
        long.push((i * 7 % 251) as u8);
    }
    let inputs: Vec<Vec<u8>> = vec![
        Vec::new(),
        b"A".to_vec(),
        b"TOBEORNOTTOBEORTOBEORNOT".to_vec(),
        vec![0u8; 600],
        long,
    ];
    for data in &inputs {
        for early in [true, false] {
            let codes = lzw_code_sequence(data, early);
            let ours = pack_codes_msb(&codes);
            assert_eq!(ours, msb_writer_pack(&codes));
            assert_eq!(encode_lzw_pdf(data, early).unwrap(), ours);
        }
    }
}
