use pdf_ast::filters::jbig2::{
    Bitmap, Jbig2Config, Jbig2Decoder, Jbig2Reader, Page, PageInformation, SegmentType,
};
use pdf_ast::filters::FilterError;

#[test]
fn test_jbig2_decoder_creation() {
    let decoder = Jbig2Decoder::new();
    assert_eq!(decoder.global_segments.len(), 0);
}

#[test]
fn test_jbig2_config() {
    let config = Jbig2Config::default();
    assert_eq!(config.max_memory_mb, 64);
    assert!(!config.strict_mode);
}

#[test]
fn test_bitmap_operations() {
    let mut bitmap = Bitmap::new(8, 8);
    assert_eq!(bitmap.get_pixel(0, 0), false);

    bitmap.set_pixel(3, 4, true);
    assert_eq!(bitmap.get_pixel(3, 4), true);
    assert_eq!(bitmap.get_pixel(3, 5), false);
}

#[test]
fn test_jbig2_reader() {
    let data = [
        0x97, 0x4A, 0x42, 0x32, 0x0D, 0x0A, 0x1A, 0x0A, 0x01, 0x00, 0x00, 0x00, 0x01,
    ];
    let mut reader = Jbig2Reader::new(&data);

    assert!(!reader.is_at_end());
    let header = reader.read_file_header().unwrap();
    assert_eq!(header.file_organization_flags, 0x01);
    assert_eq!(header.number_of_pages, Some(1));
}

#[test]
fn test_segment_type_parsing() {
    let data = [0x00, 0x00, 0x00, 0x01, 0x00, 0x00, 0x00, 0x00, 0x00, 0x10];
    let mut reader = Jbig2Reader::new(&data);
    let header = reader.read_segment_header().unwrap();

    assert_eq!(header.segment_number, 1);
    assert_eq!(header.segment_type, SegmentType::SymbolDictionary);
    assert_eq!(header.page_association, Some(0));
    assert_eq!(header.segment_length, 16);
}

fn message(e: FilterError) -> String {
    match e {
        FilterError::InvalidData(m) => m,
        FilterError::UnsupportedFilter(m) => m,
    }
}

#[test]
fn decode_rejects_bad_signature() {
    let mut decoder = Jbig2Decoder::new();
    let err = decoder.decode(&[0u8; 12], None).unwrap_err();
    assert_eq!(message(err), "Invalid JBIG2 file signature");
}

#[test]
fn decode_truncated_header() {
    let mut decoder = Jbig2Decoder::new();
    let err = decoder.decode(&[0x97, 0x4A], None).unwrap_err();
    assert_eq!(message(err), "Unexpected end of JBIG2 data");
}

#[test]
fn decode_renders_blank_page() {
    // header without page count, page information 10 x 2, end of page
    let mut data = vec![0x97, 0x4A, 0x42, 0x32, 0x0D, 0x0A, 0x1A, 0x0A, 0x00];
    // segment 0, type 48 (page information), page 1, length 17
    data.extend_from_slice(&[0, 0, 0, 0, 48, 1, 0, 0, 0, 17]);
    data.extend_from_slice(&[0, 0, 0, 10, 0, 0, 0, 2, 0, 0, 0, 72, 0, 0, 0, 72, 0]);
    // segment 1, type 49 (end of page), page 1, length 0
    data.extend_from_slice(&[0, 0, 0, 1, 49, 1, 0, 0, 0, 0]);
    let mut decoder = Jbig2Decoder::new();
    let out = decoder.decode(&data, None).unwrap();
    assert_eq!(out, vec![0u8; 4]);
}

#[test]
fn decode_keeps_global_symbol_dictionary() {
    // symbol dictionary segment: flags 0, 3 symbols
    let globals = [0, 0, 0, 0, 0, 1, 0, 0, 0, 6, 0, 0, 0, 0, 0, 3];
    let data = [0x97, 0x4A, 0x42, 0x32, 0x0D, 0x0A, 0x1A, 0x0A, 0x00];
    let mut decoder = Jbig2Decoder::new();
    let out = decoder.decode(&data, Some(&globals)).unwrap();
    assert!(out.is_empty());
    assert_eq!(decoder.global_segments.len(), 1);
}

#[test]
fn render_packs_pixels_msb_first() {
    let mut bitmap = Bitmap::new(3, 2);
    bitmap.set_pixel(0, 0, true);
    bitmap.set_pixel(2, 1, true);
    let info = PageInformation {
        width: 3,
        height: 2,
        x_resolution: 72,
        y_resolution: 72,
        flags: 0,
        striping_info: None,
    };
    let decoder = Jbig2Decoder::new();
    let out = decoder.render_page_to_bytes(Page { info, bitmap }).unwrap();
    // linear pixel indices 0 and 5 set: 0b1000_0100
    assert_eq!(out, vec![0x84, 0x00]);
}
