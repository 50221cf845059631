use pdf_ast::forms::acroform::AcroFormStats;
use pdf_ast::metadata::icc::parse_icc_profile;
use pdf_ast::multimedia::threed::{aggregate_format_counts, ThreeDInfo};
use pdf_ast::security::quirks::detect_producer_quirks;
use pdf_ast::security::report_output::{output_format_from_extension, SecurityOutputFormat};

#[test]
fn icc_header_fields() {
    let mut data = vec![0u8; 128];
    data[0..4].copy_from_slice(&[0, 0, 0x0C, 0x48]);
    data[4..8].copy_from_slice(b"lcms");
    data[8] = 0x21;
    data[12..16].copy_from_slice(b"mntr");
    data[16..20].copy_from_slice(b"RGB ");
    data[20..24].copy_from_slice(b"XYZ ");
    data[36..40].copy_from_slice(b"acsp");
    let info = parse_icc_profile(&data).unwrap();
    assert_eq!(info.size, 3144);
    assert_eq!(info.cmm_type, "lcms");
    assert_eq!(info.version, "2.1");
    assert_eq!(info.device_class, "mntr");
    assert_eq!(info.color_space, "RGB?");
    assert_eq!(info.pcs, "XYZ?");
    assert_eq!(info.signature, "acsp");
    assert!(parse_icc_profile(&data[..127]).is_none());
}

#[test]
fn format_counts() {
    let formats = vec![
        Some("U3D".to_string()),
        None,
        Some("PRC".to_string()),
        Some("U3D".to_string()),
    ];
    let counts = aggregate_format_counts(&formats);
    assert_eq!(counts, vec![("U3D".to_string(), 2), ("PRC".to_string(), 1)]);
    assert!(aggregate_format_counts(&[None, None]).is_empty());
    let d = ThreeDInfo::default();
    assert!(d.format.is_none() && !d.has_view && !d.has_activation);
}

#[test]
fn acroform_stats() {
    assert!(AcroFormStats::new(3).has_fields);
    assert!(!AcroFormStats::new(0).has_fields);
}

#[test]
fn producer_quirks() {
    let r = detect_producer_quirks(Some("Adobe PDF Library 15.0"), Some("Microsoft Word"));
    assert_eq!(r.len(), 1);
    assert_eq!(r[0].check_type, "Quirk:Adobe");
    let r = detect_producer_quirks(Some("Mac OS X 10.15 Quartz PDFContext"), None);
    assert_eq!(r.len(), 1);
    assert_eq!(r[0].check_type, "Quirk:Apple");
    let r = detect_producer_quirks(Some("GPL Ghostscript 9.50"), Some("MuPDF"));
    assert_eq!(r.len(), 2);
    assert_eq!(r[0].check_type, "Quirk:MuPDF");
    assert_eq!(r[1].check_type, "Quirk:Ghostscript");
    assert!(detect_producer_quirks(None, None).is_empty());
}

#[test]
fn report_formats_by_extension() {
    assert_eq!(output_format_from_extension("JSON"), Some(SecurityOutputFormat::Json));
    assert_eq!(output_format_from_extension("yml"), Some(SecurityOutputFormat::Yaml));
    assert_eq!(output_format_from_extension("Toml"), Some(SecurityOutputFormat::Toml));
    assert_eq!(output_format_from_extension("txt"), None);
}
