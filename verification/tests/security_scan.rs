use pdf_ast::security::heuristics::{
    check_eof_markers, check_polyglot_signatures, check_trailing_data, detect_missing_endobj_count,
    format_object_id,
};
use pdf_ast::security::polyglot::{
    count_eof_markers, detect_polyglot_hits, detect_trailing_data, scan_signature_hits, PolyglotHit,
};
use pdf_ast::security::ValidationStatus;

#[test]
fn scan_finds_zip_and_png() {
    let mut data = b"%PDF-1.7 ".to_vec();
    data.extend_from_slice(b"PK\x03\x04");
    data.extend_from_slice(b" \x89PNG\r\n\x1A\n");
    let hits = scan_signature_hits(&data, 100);
    assert_eq!(
        hits,
        vec![
            PolyglotHit { format: "ZIP".to_string(), offset: 109 },
            PolyglotHit { format: "PNG".to_string(), offset: 114 },
        ]
    );
}

#[test]
fn polyglot_hits_are_unique() {
    let data = b"MZ..MZ";
    let hits = detect_polyglot_hits(data, 0, data, 0);
    assert_eq!(hits.len(), 2);
    assert!(hits.contains(&PolyglotHit { format: "MZ".to_string(), offset: 0 }));
    assert!(hits.contains(&PolyglotHit { format: "MZ".to_string(), offset: 4 }));
}

#[test]
fn trailing_data_after_eof() {
    assert_eq!(detect_trailing_data(b"abc%%EOF\r\n  X", 10), Some(22));
    assert_eq!(detect_trailing_data(b"abc%%EOF\r\n", 10), None);
    assert_eq!(detect_trailing_data(b"no marker", 0), None);
}

#[test]
fn eof_markers_counted() {
    assert_eq!(count_eof_markers(b"%%EOF\n%%EOF%%EOF"), 3);
    assert_eq!(count_eof_markers(b""), 0);
}

#[test]
fn missing_endobj_detected() {
    let data = b"1 0 obj << >> endobj 2 0 obj << >> 3 0 obj 5 endobj";
    assert_eq!(detect_missing_endobj_count(data), 1);
}

#[test]
fn heuristic_results() {
    let mut results = Vec::new();
    check_trailing_data(b"%%EOF junk", 90, &mut results);
    check_eof_markers(b"%%EOF %%EOF", &mut results);
    check_polyglot_signatures(b"GIF89a", 0, b"", 0, &mut results);
    assert_eq!(results.len(), 3);
    assert_eq!(results[0].check_type, "Heuristics:TrailingData");
    assert_eq!(results[0].message, "Data found after %%EOF at offset 96");
    assert_eq!(results[1].message, "Multiple EOF markers detected in tail: 2");
    assert_eq!(results[2].message, "Signature GIF89a detected at offset 0");
    assert_eq!(results[2].status, ValidationStatus::Warning);
}

#[test]
fn object_id_format() {
    assert_eq!(format_object_id(12, 0), "12 0");
}

#[test]
fn scan_at_a_far_offset_without_hits_finds_nothing() {
    let far = usize::MAX as u64;
    assert!(scan_signature_hits(b"plain text, no signature", far).is_empty());
    assert!(detect_polyglot_hits(b"abc", far, b"def", far).is_empty());
    assert_eq!(detect_trailing_data(b"no marker here", far), None);
}
