use pdf_ast::performance::streaming::{
    find_trailer_position, parse_xref_chunk, parse_xref_line, trailer_search_window,
    xref_scan_step, XRefEntry, XRefEntryType, XRefScanError,
};

fn in_use(offset: u64, generation: u16) -> XRefEntry {
    XRefEntry { offset, generation, entry_type: XRefEntryType::InUse }
}

fn free(offset: u64, generation: u16) -> XRefEntry {
    XRefEntry { offset, generation, entry_type: XRefEntryType::Free }
}

#[test]
fn parses_entry_lines() {
    assert_eq!(parse_xref_line("0000000017 00000 n"), Ok(Some(in_use(17, 0))));
    assert_eq!(parse_xref_line("0000000000 65535 f \r"), Ok(Some(free(0, 65535))));
    assert_eq!(parse_xref_line("0 2"), Ok(None));
    assert_eq!(parse_xref_line("1 2 x"), Ok(None));
    assert_eq!(parse_xref_line(""), Ok(None));
}

#[test]
fn rejects_bad_numbers_in_entry_lines() {
    assert_eq!(parse_xref_line("a 0 n"), Err(XRefScanError::InvalidOffset));
    assert_eq!(parse_xref_line("1 70000 n"), Err(XRefScanError::InvalidGeneration));
    assert_eq!(parse_xref_line("a 0 x"), Err(XRefScanError::InvalidOffset));
}

#[test]
fn parses_chunks_line_by_line() {
    let chunk = b"xref\n0 2\n0000000000 65535 f \r\n0000000017 00000 n \ntrailer";
    assert_eq!(parse_xref_chunk(chunk), Ok(vec![free(0, 65535), in_use(17, 0)]));
    assert_eq!(parse_xref_chunk(b""), Ok(vec![]));
    assert_eq!(parse_xref_chunk(&[0xff, 0x20]), Err(XRefScanError::InvalidUtf8));
    assert_eq!(
        parse_xref_chunk(b"0 1 n\nx 1 n\n"),
        Err(XRefScanError::InvalidOffset)
    );
}

#[test]
fn finds_the_last_startxref_position() {
    assert_eq!(find_trailer_position(b"trailer\nstartxref\n1234\n%%EOF"), Ok(1234));
    assert_eq!(
        find_trailer_position(b"startxref 10\nstartxref 99\n%%EOF"),
        Ok(99)
    );
    assert_eq!(find_trailer_position(b"%%EOF"), Err(XRefScanError::StartxrefNotFound));
    assert_eq!(find_trailer_position(b"startxref\n "), Err(XRefScanError::NoXrefPosition));
    assert_eq!(
        find_trailer_position(b"startxref abc"),
        Err(XRefScanError::InvalidXrefPosition)
    );
}

#[test]
fn searches_the_last_kilobyte() {
    assert_eq!(trailer_search_window(500), (0, 500));
    assert_eq!(trailer_search_window(5000), (3976, 1024));
}

#[test]
fn scan_steps_stop_at_startxref_or_empty_chunks() {
    assert_eq!(xref_scan_step(10, b""), Ok((vec![], None)));
    assert_eq!(xref_scan_step(10, b"0 1 n\n"), Ok((vec![in_use(0, 1)], Some(16))));
    assert_eq!(
        xref_scan_step(10, b"0 1 n\nstartxref\n"),
        Ok((vec![in_use(0, 1)], None))
    );
    assert_eq!(xref_scan_step(10, &[0xff]), Err(XRefScanError::InvalidUtf8));
}

#[test]
fn scan_errors_have_messages() {
    assert_eq!(XRefScanError::StartxrefNotFound.message(), "startxref not found");
    assert!(XRefScanError::StartxrefNotFound.is_not_found());
    assert_eq!(XRefScanError::InvalidGeneration.message(), "Invalid generation");
    assert!(!XRefScanError::InvalidOffset.is_not_found());
}
