use pdf_ast::security::hardening::SecurityViolation;

#[test]
fn limit_violations_name_the_value_and_the_limit() {
    assert_eq!(SecurityViolation::StringTooLong(5, 3).message(), "String too long: 5 > 3 characters");
    assert_eq!(SecurityViolation::ArrayTooLarge(12, 10).message(), "Array too large: 12 > 10 elements");
    assert_eq!(
        SecurityViolation::DictionaryTooLarge(7, 6).message(),
        "Dictionary too large: 7 > 6 entries"
    );
    assert_eq!(SecurityViolation::StreamTooLarge(9, 8).message(), "Stream too large: 9 > 8 bytes");
    assert_eq!(SecurityViolation::NestingTooDeep(51, 50).message(), "Nesting too deep: 51 > 50 levels");
    assert_eq!(SecurityViolation::TooManyReferences(11, 10).message(), "Too many references: 11 > 10");
    assert_eq!(SecurityViolation::TooManyPages(3, 2).message(), "Too many pages: 3 > 2");
    assert_eq!(SecurityViolation::FileTooLarge(200, 100).message(), "File too large: 200 > 100 bytes");
}

#[test]
fn named_violations_quote_the_name() {
    assert_eq!(
        SecurityViolation::ForbiddenObjectType("Launch".to_string()).message(),
        "Forbidden object type: Launch"
    );
    assert_eq!(
        SecurityViolation::ForbiddenDictionaryKey("JS".to_string()).message(),
        "Forbidden dictionary key: JS"
    );
    assert_eq!(
        SecurityViolation::DangerousForm("Form action detected".to_string()).message(),
        "Dangerous form field: Form action detected"
    );
    assert_eq!(
        SecurityViolation::SuspiciousAnnotation("Multimedia annotation".to_string()).message(),
        "Suspicious annotation: Multimedia annotation"
    );
}

#[test]
fn quoted_content_is_cut_after_one_hundred_bytes() {
    let long = "x".repeat(150);
    let m = SecurityViolation::SuspiciousPattern("eval".to_string(), long).message();
    assert_eq!(m, format!("Suspicious pattern 'eval' in content: {}", "x".repeat(100)));
    let accented = "é".repeat(60);
    let m = SecurityViolation::MaliciousJavaScript(accented).message();
    assert_eq!(m, format!("Malicious JavaScript detected: {}", "é".repeat(50)));
    let short = SecurityViolation::MaliciousJavaScript("eval(1)".to_string()).message();
    assert_eq!(short, "Malicious JavaScript detected: eval(1)");
}

use pdf_ast::security::validator::{SecurityLimits, SecurityValidator};
use pdf_ast::types::{ObjectId, PdfValue};

fn contains(v: &[String], s: &str) -> bool {
    v.iter().any(|x| x == s)
}

#[test]
fn test_security_limits() {
    let limits = SecurityLimits::strict();
    assert!(contains(&limits.forbidden_types, "JavaScript"));
    assert!(contains(&limits.forbidden_keys, "JS"));
    assert!(limits.max_string_length < SecurityLimits::default().max_string_length);
}

#[test]
fn test_string_validation() {
    let limits = SecurityLimits::default();
    let mut validator = SecurityValidator::new(limits);

    let long_string = PdfValue::String(String::from_utf8(vec![b'a'; 2_000_000]).unwrap());
    assert!(validator.validate_value(&long_string).is_err());

    let js_string = PdfValue::String("function evil() { eval('bad'); }".to_string());
    assert!(validator.validate_value(&js_string).is_err());
}

#[test]
fn test_reference_counting() {
    let limits = SecurityLimits::default();
    let mut validator = SecurityValidator::new(limits);
    let obj_id = ObjectId { number: 1, generation: 0 };
    for _ in 0..10 {
        assert!(validator.validate_value(&PdfValue::Reference(obj_id)).is_ok());
    }
    assert_eq!(validator.get_statistics().reference_counts, vec![(obj_id, 10)]);
}

fn dict(entries: Vec<(&str, PdfValue)>) -> PdfValue {
    PdfValue::Dictionary(entries.into_iter().map(|(k, v)| (k.to_string(), v)).collect())
}

#[test]
fn validator_reports_each_kind_of_violation() {
    let mut v = SecurityValidator::new(SecurityLimits::default());
    let m = |r: Result<(), pdf_ast::security::hardening::SecurityViolation>| r.unwrap_err().message();

    assert_eq!(m(v.validate_value(&dict(vec![("JS", PdfValue::Null)]))), "Forbidden dictionary key: JS");
    assert_eq!(
        m(v.validate_value(&dict(vec![("S", PdfValue::Name("Launch".to_string()))]))),
        "Forbidden object type: Launch"
    );
    assert_eq!(
        m(v.validate_value(&dict(vec![("FT", PdfValue::Name("Sig".to_string()))]))),
        "Dangerous form field: Signature field detected"
    );
    assert_eq!(m(v.validate_value(&dict(vec![("AA", PdfValue::Null)]))), "Dangerous form field: Form action detected");
    assert_eq!(
        m(v.validate_value(&dict(vec![("Subtype", PdfValue::Name("Widget".to_string()))]))),
        "Suspicious annotation: Interactive widget annotation"
    );
    assert_eq!(
        m(v.validate_value(&PdfValue::String("see http://example.org".to_string()))),
        "Suspicious pattern '(?i)(https?://|ftp://|ldap://)' in content: see http://example.org"
    );
    assert!(v.validate_value(&dict(vec![("Type", PdfValue::Name("Catalog".to_string())), ("Count", PdfValue::Integer(3))])).is_ok());

    let mut lax = SecurityValidator::new(SecurityLimits::permissive());
    assert!(lax.validate_value(&dict(vec![("AA", PdfValue::Null)])).is_ok());
    assert_eq!(
        m(lax.validate_value(&PdfValue::Stream(vec![], 600_000_000))),
        "Stream too large: 600000000 > 500000000 bytes"
    );

    let mut limits = SecurityLimits::default();
    limits.max_nesting_depth = 1;
    limits.max_pages = 1;
    let mut shallow = SecurityValidator::new(limits);
    let nested = PdfValue::Array(vec![PdfValue::Array(vec![PdfValue::Array(vec![])])]);
    assert_eq!(m(shallow.validate_value(&nested)), "Nesting too deep: 2 > 1 levels");
    let page = || dict(vec![("Type", PdfValue::Name("Page".to_string()))]);
    assert!(shallow.validate_value(&page()).is_ok());
    assert_eq!(m(shallow.validate_value(&page())), "Too many pages: 2 > 1");
    assert_eq!(shallow.get_statistics().page_count, 2);
    assert_eq!(m(shallow.validate_file_size(100_000_001)), "File too large: 100000001 > 100000000 bytes");
}

#[test]
fn validator_finds_malicious_scripts() {
    let mut v = SecurityValidator::new(SecurityLimits::permissive());
    let script = dict(vec![("JS", PdfValue::String("x = document.cookie".to_string()))]);
    // Permissive limits do not check scripts, but the key itself stays forbidden.
    assert_eq!(v.validate_value(&script).unwrap_err().message(), "Forbidden dictionary key: JS");
    let mut limits = SecurityLimits::default();
    limits.forbidden_keys.clear();
    limits.forbidden_patterns.clear();
    let mut w = SecurityValidator::new(limits);
    assert_eq!(w.validate_value(&script).unwrap_err().message(), "Malicious JavaScript detected: x = document.cookie");
    let benign = dict(vec![("JS", PdfValue::String("x = 1".to_string()))]);
    assert!(w.validate_value(&benign).is_ok());
}

use pdf_ast::security::sanitizer::PdfSanitizer;

fn keys(v: &PdfValue) -> Vec<String> {
    match v {
        PdfValue::Dictionary(es) => es.iter().map(|(k, _)| k.clone()).collect(),
        _ => vec![],
    }
}

#[test]
fn test_sanitizer() {
    let limits = SecurityLimits::default();
    let sanitizer = PdfSanitizer::new(limits);

    let mut dict = dict(vec![
        ("Type", PdfValue::Name("JavaScript".to_string())),
        ("JS", PdfValue::String("alert('xss')".to_string())),
    ]);

    let clean = sanitizer.sanitize_value(&mut dict);
    assert!(!clean);
    assert!(!keys(&dict).contains(&"Type".to_string()));
    assert!(!keys(&dict).contains(&"JS".to_string()));
}

#[test]
fn sanitizer_replaces_cuts_and_requeues() {
    let mut limits = SecurityLimits::default();
    limits.max_string_length = 12;
    limits.max_array_size = 2;
    let s = PdfSanitizer::new(limits);

    let mut text = PdfValue::String("go to http://x.org now".to_string());
    assert!(!s.sanitize_value(&mut text));
    match &text {
        PdfValue::String(t) => assert_eq!(t, "go to [SANIT[TRUNCATED]"),
        _ => panic!("not a string"),
    }

    let mut plain = PdfValue::String("hello".to_string());
    assert!(s.sanitize_value(&mut plain));

    let mut arr = PdfValue::Array(vec![PdfValue::Integer(1), PdfValue::Integer(2), PdfValue::Integer(3)]);
    assert!(!s.sanitize_value(&mut arr));
    match &arr {
        PdfValue::Array(items) => assert_eq!(items.len(), 2),
        _ => panic!("not an array"),
    }

    let mut d = dict(vec![
        ("K1", PdfValue::Integer(1)),
        ("K2", PdfValue::Integer(2)),
        ("K3", PdfValue::Integer(3)),
    ]);
    assert!(s.sanitize_value(&mut d));
    assert_eq!(keys(&d), vec!["K2".to_string(), "K1".to_string(), "K3".to_string()]);

    let mut wide = PdfValue::String("aéééééé".to_string());
    assert_eq!(s.try_sanitize_value(&mut wide), None);
    match &wide {
        PdfValue::String(t) => assert_eq!(t, "aéééééé"),
        _ => panic!("not a string"),
    }
    let mut fine = PdfValue::Stream(vec![("Length".to_string(), PdfValue::Integer(3))], 100);
    assert_eq!(s.try_sanitize_value(&mut fine), Some(true));
}
