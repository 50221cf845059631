use pdf_ast::parser::lazy_stream::{extract_from_object_stream, MemoryStreamSource};

const STREAM: &[u8] = b"1 0 2 5 hello world";

#[test]
fn extracts_each_object_between_offsets() {
    let first = extract_from_object_stream(STREAM, Some(2), Some(8), 0).unwrap();
    assert_eq!(first, b"hello".to_vec());
    let last = extract_from_object_stream(STREAM, Some(2), Some(8), 1).unwrap();
    assert_eq!(last, b" world".to_vec());
}

#[test]
fn reports_missing_dictionary_entries() {
    assert_eq!(
        extract_from_object_stream(STREAM, None, Some(8), 0),
        Err("Missing N in object stream".to_string())
    );
    assert_eq!(
        extract_from_object_stream(STREAM, Some(2), None, 0),
        Err("Missing First in object stream".to_string())
    );
}

#[test]
fn reports_index_out_of_range() {
    assert_eq!(
        extract_from_object_stream(STREAM, Some(2), Some(8), 2),
        Err("Index 2 out of range for object stream with 2 objects".to_string())
    );
}

#[test]
fn reports_bad_offset_table() {
    assert_eq!(
        extract_from_object_stream(STREAM, Some(2), Some(100), 0),
        Err("Invalid First offset in object stream".to_string())
    );
    assert_eq!(
        extract_from_object_stream(b"1 0 2 5 hello", Some(3), Some(8), 2),
        Err("Insufficient entries in offset table".to_string())
    );
    assert_eq!(
        extract_from_object_stream(b"1 x 2 5 hello", Some(2), Some(8), 0),
        Err("Invalid offset: invalid digit found in string".to_string())
    );
    assert_eq!(
        extract_from_object_stream(b"1 0 2 y hello", Some(2), Some(8), 0),
        Err("Invalid next offset: invalid digit found in string".to_string())
    );
    assert_eq!(
        extract_from_object_stream(b"1 0 2 9 hello", Some(2), Some(8), 0),
        Err("Object offset out of bounds".to_string())
    );
    let bad_utf8: &[u8] = &[0xff, b' ', b'0', b' ', b'x'];
    let err = extract_from_object_stream(bad_utf8, Some(1), Some(4), 0).unwrap_err();
    assert!(err.starts_with("Invalid offset table: "));
}

#[test]
fn memory_source_reads_ranges() {
    let mut source = MemoryStreamSource::new(b"0123456789".to_vec());
    assert_eq!(source.read_at(2, 3).unwrap(), b"234".to_vec());
    assert!(source.read_at(8, 5).is_err());
}
