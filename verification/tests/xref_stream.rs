use pdf_ast::ast::document::XRefEntry;
use pdf_ast::parser::xref::parse_xref_stream;
use pdf_ast::types::ObjectId;

fn sample() -> Vec<u8> {
    vec![0x00, 0x00, 0x00, 0xFF, 0x01, 0x00, 0x10, 0x00, 0x02, 0x00, 0x05, 0x03]
}

#[test]
fn parses_three_kinds_of_entries() {
    let w = [Some(1i64), Some(2), Some(1)];
    let entries = parse_xref_stream(Some(&w), None, Some(3), &sample()).unwrap();
    assert_eq!(
        entries,
        vec![
            (ObjectId::new(0, 255), XRefEntry::Free { next_free_object: 0, generation: 255 }),
            (ObjectId::new(1, 0), XRefEntry::InUse { offset: 16, generation: 0 }),
            (ObjectId::new(2, 0), XRefEntry::Compressed { stream_object: 5, index: 3 }),
        ]
    );
}

#[test]
fn index_subsections_and_short_data() {
    let w = [Some(1i64), Some(2), Some(1)];
    let index = [Some(10i64), None, Some(2), Some(40), Some(5)];
    let entries = parse_xref_stream(Some(&w), Some(&index), None, &sample()).unwrap();
    let ids: Vec<u32> = entries.iter().map(|(id, _)| id.number).collect();
    assert_eq!(ids, vec![10, 11, 40]);
}

#[test]
fn zero_width_type_defaults_to_in_use() {
    let w = [Some(0i64), Some(1), None];
    let entries = parse_xref_stream(Some(&w), None, Some(2), &[7, 9]).unwrap();
    assert_eq!(
        entries,
        vec![
            (ObjectId::new(0, 0), XRefEntry::InUse { offset: 7, generation: 0 }),
            (ObjectId::new(1, 0), XRefEntry::InUse { offset: 9, generation: 0 }),
        ]
    );
}

#[test]
fn xref_stream_errors() {
    let w = [Some(1i64), Some(2), Some(1)];
    assert_eq!(
        parse_xref_stream(None, None, Some(1), &sample()),
        Err("Missing W array in XRef stream".to_string())
    );
    assert_eq!(
        parse_xref_stream(Some(&w[..2]), None, Some(1), &sample()),
        Err("W array must have exactly 3 elements".to_string())
    );
    assert_eq!(
        parse_xref_stream(Some(&[Some(0), None, Some(0)]), None, Some(1), &sample()),
        Err("Invalid W array - all widths are zero".to_string())
    );
    assert_eq!(
        parse_xref_stream(Some(&w), None, Some(1), &[0x03, 0, 0, 0]),
        Err("Invalid XRef entry type: 3".to_string())
    );
}

#[test]
fn entry_accessors() {
    let in_use = XRefEntry::InUse { offset: 99, generation: 2 };
    let free = XRefEntry::Free { next_free_object: 4, generation: 1 };
    let packed = XRefEntry::Compressed { stream_object: 8, index: 0 };
    assert_eq!(in_use.generation(), 2);
    assert_eq!(free.generation(), 1);
    assert_eq!(packed.generation(), 0);
    assert!(in_use.is_in_use() && packed.is_in_use() && !free.is_in_use());
    assert!(free.is_free() && !in_use.is_free());
    assert_eq!(in_use.offset(), Some(99));
    assert_eq!(packed.offset(), None);
}

use pdf_ast::parser::xref::{parse_linearization_entries, validate_linearization};

#[test]
fn linearization_entries_are_read_and_checked() {
    let h = [Some(1200), Some(300)];
    let e = parse_linearization_entries(true, Some(50000), Some(&h), Some(12), Some(7), Some(9000), Some(40)).unwrap();
    assert_eq!(e.file_length, 50000);
    assert_eq!(e.hint_stream_offset, 1200);
    assert_eq!(e.hint_stream_length, Some(300));
    assert_eq!(e.object_count, 12);
    assert_eq!(e.first_page_object_number, 7);
    assert_eq!(e.first_page_end_offset, 9000);
    assert_eq!(e.main_xref_table_entries, 40);
    assert_eq!(validate_linearization(&e), Ok(()));

    let short = [Some(1200)];
    let e2 = parse_linearization_entries(true, Some(1000), Some(&short), Some(1), Some(1), Some(10), Some(1)).unwrap();
    assert_eq!(e2.hint_stream_length, None);
    assert_eq!(validate_linearization(&e2), Err("Hint stream offset beyond file length".to_string()));

    assert_eq!(
        parse_linearization_entries(false, Some(1), Some(&h), Some(1), Some(1), Some(1), Some(1)).unwrap_err(),
        "Not a linearized PDF - missing /Linearized entry"
    );
    assert_eq!(
        parse_linearization_entries(true, Some(1), None, None, Some(1), Some(1), Some(1)).unwrap_err(),
        "Missing /H (hint stream offset) in linearization dict"
    );
    assert_eq!(
        parse_linearization_entries(true, Some(1), Some(&h), Some(1), Some(1), Some(1), None).unwrap_err(),
        "Missing /T (main xref table entries) in linearization dict"
    );
    let mut bad = e;
    bad.object_count = 0;
    assert_eq!(validate_linearization(&bad), Err("Invalid object count in linearization dict".to_string()));
    bad.file_length = 0;
    assert_eq!(validate_linearization(&bad), Err("Invalid file length in linearization dict".to_string()));
}
