use pdf_ast::security::etsi::{validate_etsi_profiles, EtsiValidationOptions};
use pdf_ast::security::signatures::{parse_pdf_date, SignatureFormat, SignatureVerifier};
use pdf_ast::security::{
    DigitalSignature, SignatureType, SignatureValidity, TimestampDetails, ValidationStatus,
};

#[test]
fn test_parse_pdf_date() {
    let date = "D:20231201120000+01'00";
    let result = parse_pdf_date(date);
    assert!(result.is_ok());
    assert_eq!(result.unwrap(), "2023-12-01 12:00:00");
}

#[test]
fn test_invalid_pdf_date() {
    let date = "InvalidDate";
    let result = parse_pdf_date(date);
    assert!(result.is_err());
}

#[test]
fn pdf_date_errors() {
    assert_eq!(parse_pdf_date("2023"), Err("Invalid PDF date format".to_string()));
    assert_eq!(parse_pdf_date("D:2023120112"), Err("PDF date too short".to_string()));
    assert_eq!(parse_pdf_date("D:19991231235959"), Ok("1999-12-31 23:59:59".to_string()));
}

#[test]
fn signature_format_detection() {
    let mut der = vec![0x30u8, 0x82];
    der.extend_from_slice(&[0u8; 10]);
    let info = SignatureVerifier::extract_signature_info(&der).unwrap();
    assert_eq!(info.format, SignatureFormat::PKCS7);
    assert_eq!(info.algorithm, "Unknown");
    assert_eq!(
        SignatureVerifier::extract_signature_info(&[0x30, 0x80]).err(),
        Some("Signature contents too short".to_string())
    );
    assert_eq!(
        SignatureVerifier::extract_signature_info(&[0u8; 12]).err(),
        Some("Unknown signature format".to_string())
    );
}

#[test]
fn x509_verification_reports_missing_context() {
    let r = SignatureVerifier::verify_x509_signature(b"abc", b"def");
    assert!(!r.is_valid);
    assert_eq!(
        r.error,
        Some("X.509 verification requires certificate and data context".to_string())
    );
}

fn base_sig(signature_type: SignatureType) -> DigitalSignature {
    DigitalSignature {
        field_name: "Sig1".to_string(),
        signature_type,
        signer: None,
        signing_time: None,
        certificate_info: None,
        validity: SignatureValidity::Valid,
        location: None,
        reason: None,
        contact_info: None,
        timestamp: None,
    }
}

#[test]
fn validate_pades_requires_dss() {
    let sigs = vec![base_sig(SignatureType::AdbePkcs7Detached)];
    let res = validate_etsi_profiles(
        &sigs,
        false,
        EtsiValidationOptions { require_dss_for_pades: true },
    );
    assert!(res.iter().any(|r| r.status == ValidationStatus::Fail));
}

#[test]
fn validate_cades_and_rfc3161() {
    let mut sig = base_sig(SignatureType::EtsiRfc3161);
    sig.timestamp = Some(TimestampDetails {
        time: None,
        policy_oid: None,
        hash_algorithm: None,
        signature_valid: true,
        tsa_chain_valid: None,
        tsa_pin_valid: None,
        tsa_revocation_events: Vec::new(),
    });
    let sigs = vec![sig, base_sig(SignatureType::EtsiCadEsDetached)];
    let res = validate_etsi_profiles(&sigs, true, EtsiValidationOptions::default());
    assert!(res.iter().any(|r| r.check_type == "ETSI:CAdES"));
    assert!(res.iter().any(|r| r.check_type == "ETSI:RFC3161"));
}

#[test]
fn etsi_messages() {
    let mut invalid = base_sig(SignatureType::EtsiCadEsDetached);
    invalid.validity = SignatureValidity::Invalid("bad digest".to_string());
    let sigs = vec![
        invalid,
        base_sig(SignatureType::EtsiRfc3161),
        base_sig(SignatureType::AdbePkcs7Sha1),
        base_sig(SignatureType::AdbeX509RsaSha1),
    ];
    let res = validate_etsi_profiles(&sigs, false, EtsiValidationOptions::default());
    assert_eq!(res.len(), 3);
    assert_eq!(res[0].status, ValidationStatus::Fail);
    assert_eq!(res[0].message, "ETSI:CAdES signature invalid: bad digest");
    assert_eq!(res[1].status, ValidationStatus::Warning);
    assert_eq!(res[1].message, "RFC3161 timestamp not present");
    assert_eq!(res[2].check_type, "ETSI:PAdES-LTV");
    assert_eq!(res[2].status, ValidationStatus::Warning);
    assert_eq!(res[2].message, "PAdES signatures detected: 2 without DSS");
}

#[test]
fn etsi_no_signatures() {
    let res = validate_etsi_profiles(&[], true, EtsiValidationOptions::default());
    assert_eq!(res.len(), 1);
    assert_eq!(res[0].check_type, "ETSI:Profiles");
    assert_eq!(res[0].status, ValidationStatus::Warning);
    assert_eq!(res[0].message, "No ETSI/PAdES signatures detected");
}

#[test]
fn etsi_pades_with_dss_passes() {
    let sigs = vec![base_sig(SignatureType::AdbePkcs7Detached)];
    let res = validate_etsi_profiles(&sigs, true, EtsiValidationOptions { require_dss_for_pades: true });
    assert_eq!(res.len(), 1);
    assert_eq!(res[0].status, ValidationStatus::Pass);
    assert_eq!(res[0].message, "PAdES signatures detected: 1 with DSS present");
}

use pdf_ast::security::signatures::{
    bytes_to_hex, signature_type_of, to_digital_signature, SignatureRecord, SignerRecord,
};

#[test]
fn sub_filters_name_signature_types() {
    assert_eq!(signature_type_of("adbe.pkcs7.detached"), SignatureType::AdbePkcs7Detached);
    assert_eq!(signature_type_of("adbe.pkcs7.sha1"), SignatureType::AdbePkcs7Sha1);
    assert_eq!(signature_type_of("adbe.x509.rsa_sha1"), SignatureType::AdbeX509RsaSha1);
    assert_eq!(signature_type_of("ETSI.CAdES.detached"), SignatureType::EtsiCadEsDetached);
    assert_eq!(signature_type_of("ETSI.RFC3161"), SignatureType::EtsiRfc3161);
    assert_eq!(signature_type_of("unknown"), SignatureType::AdbePkcs7Detached);
}

#[test]
fn serial_numbers_render_in_hex() {
    assert_eq!(bytes_to_hex(&[0x00, 0x0f, 0xa5, 0xff]), "000fa5ff");
    assert_eq!(bytes_to_hex(&[]), "");
}

fn record(subject: &str, issuer: &str) -> SignatureRecord {
    SignatureRecord {
        field_name: "Sig1".to_string(),
        filter: "Adobe.PPKLite".to_string(),
        sub_filter: "ETSI.CAdES.detached".to_string(),
        signer: SignerRecord {
            subject: subject.to_string(),
            issuer: issuer.to_string(),
            serial_number: vec![1, 0xab],
            not_before: "2024-01-01 00:00:00 UTC".to_string(),
            not_after: "2025-01-01 00:00:00 UTC".to_string(),
            key_usage: vec!["digitalSignature".to_string()],
        },
        signing_time: Some("2024-06-01 10:00:00 UTC".to_string()),
        validity: SignatureValidity::Invalid("digest mismatch".to_string()),
        location: Some("Berlin".to_string()),
        reason: None,
        contact_info: None,
        timestamp: None,
    }
}

#[test]
fn digital_signature_from_record() {
    let sig = to_digital_signature(record("CN=Alice", "CN=CA"));
    assert_eq!(sig.field_name, "Sig1");
    assert_eq!(sig.signature_type, SignatureType::EtsiCadEsDetached);
    assert_eq!(sig.signer.as_deref(), Some("CN=Alice"));
    let cert = sig.certificate_info.unwrap();
    assert_eq!(cert.serial_number, "01ab");
    assert_eq!(cert.issuer, "CN=CA");
    assert_eq!(cert.algorithm, "Adobe.PPKLite");
    assert_eq!(cert.valid_to, "2025-01-01 00:00:00 UTC");
    assert!(matches!(sig.validity, SignatureValidity::Invalid(ref m) if m == "digest mismatch"));
    assert_eq!(sig.location.as_deref(), Some("Berlin"));

    let sig = to_digital_signature(record("", "CN=CA"));
    assert_eq!(sig.signer, None);
    assert_eq!(sig.certificate_info.unwrap().subject, "");
    let sig = to_digital_signature(record("", ""));
    assert!(sig.certificate_info.is_none());
}
