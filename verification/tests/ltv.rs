use pdf_ast::security::ltv::{extract_ltv_info, DssEntries};
use pdf_ast::types::ValueShape;

#[test]
fn parse_ltv_info() {
    // Certs: [<<>> <<>>], VRI: << /A <<>> /B <<>> >>.
    let dss = DssEntries {
        certs: Some(ValueShape::Array(2)),
        ocsps: None,
        crls: None,
        timestamps: None,
        vri: Some(ValueShape::Dictionary(2)),
    };
    let info = extract_ltv_info(&dss);
    assert!(info.has_dss);
    assert_eq!(info.certs_count, 2);
    assert_eq!(info.vri_count, 2);
}

#[test]
fn ltv_counts_single_dictionaries_once() {
    let dss = DssEntries {
        certs: None,
        ocsps: Some(ValueShape::Dictionary(5)),
        crls: Some(ValueShape::Other),
        timestamps: Some(ValueShape::Array(3)),
        vri: Some(ValueShape::Array(4)),
    };
    let info = extract_ltv_info(&dss);
    assert_eq!(info.certs_count, 0);
    assert_eq!(info.ocsp_count, 1);
    assert_eq!(info.crl_count, 0);
    assert_eq!(info.timestamp_count, 3);
    assert_eq!(info.vri_count, 0);
}
