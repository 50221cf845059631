use pdf_ast::ast::document::XRefEntry;
use pdf_ast::parser::xref_table::parse_xref_table;
use pdf_ast::types::ObjectId;

#[test]
fn parses_classic_table() {
    let input = b"xref\n0 3\n0000000000 65535 f \n0000000017 00000 n \n0000000081 00000 n \ntrailer";
    let (entries, used) = parse_xref_table(input).unwrap();
    assert_eq!(
        entries,
        vec![
            (ObjectId::new(0, 65535), XRefEntry::Free { next_free_object: 0, generation: 65535 }),
            (ObjectId::new(1, 0), XRefEntry::InUse { offset: 17, generation: 0 }),
            (ObjectId::new(2, 0), XRefEntry::InUse { offset: 81, generation: 0 }),
        ]
    );
    assert_eq!(&input[used..], b"trailer");
}

#[test]
fn several_subsections_and_count_limit() {
    let input = b"xref\r\n0 1\r\n0000000000 65535 f\r\n5 1\r\n0000000100 00002 n\r\n0000000200 00000 n\r\n";
    let (entries, used) = parse_xref_table(input).unwrap();
    assert_eq!(entries.len(), 2);
    assert_eq!(entries[1], (ObjectId::new(5, 2), XRefEntry::InUse { offset: 100, generation: 2 }));
    assert_eq!(used, input.len());
}

#[test]
fn rejects_malformed_tables() {
    assert!(parse_xref_table(b"xre").is_none());
    assert!(parse_xref_table(b"xref\n").is_none());
    assert!(parse_xref_table(b"xref\n0 1\n").is_none());
    assert!(parse_xref_table(b"xref\n0 1\n0000000000 70000 n\n").is_none());
    assert!(parse_xref_table(b"trailer").is_none());
}
