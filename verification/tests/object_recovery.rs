use pdf_ast::parser::object_parser::{parse_stream_with_endstream_detection, recover_to_endobj};

#[test]
fn stream_data_stops_before_the_line_end_of_endstream() {
    let input = b"abc\r\nendstream\nendobj";
    let (data, used) = parse_stream_with_endstream_detection(input);
    assert_eq!(data, b"abc".to_vec());
    assert_eq!(&input[used..], b"\nendobj");

    let (data, used) = parse_stream_with_endstream_detection(b"xyz\nendstream");
    assert_eq!(data, b"xyz".to_vec());
    assert_eq!(used, 13);

    let (data, _) = parse_stream_with_endstream_detection(b"xyz\rendstream");
    assert_eq!(data, b"xyz".to_vec());

    let (data, _) = parse_stream_with_endstream_detection(b"xyzendstream");
    assert_eq!(data, b"xyz".to_vec());

    let (data, _) = parse_stream_with_endstream_detection(b"x\r\rendstream");
    assert_eq!(data, b"x\r".to_vec());
}

#[test]
fn stream_without_endstream_takes_everything() {
    let (data, used) = parse_stream_with_endstream_detection(b"no marker here");
    assert_eq!(data, b"no marker here".to_vec());
    assert_eq!(used, 14);
    let (data, used) = parse_stream_with_endstream_detection(b"endstream");
    assert!(data.is_empty());
    assert_eq!(used, 9);
}

#[test]
fn recovery_resumes_after_endobj() {
    let input = b"garbage ] >> endobj 2 0 obj";
    let rest = recover_to_endobj(input).unwrap();
    assert_eq!(&input[rest..], b" 2 0 obj");
    assert_eq!(recover_to_endobj(b"no end here"), None);
}
