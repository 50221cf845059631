use pdf_ast::crypto::timestamp::{map_hash_oid, TimestampAccuracy};

#[test]
fn hash_oids_name_their_algorithm() {
    assert_eq!(map_hash_oid("1.3.14.3.2.26"), Some("SHA-1"));
    assert_eq!(map_hash_oid("2.16.840.1.101.3.4.2.1"), Some("SHA-256"));
    assert_eq!(map_hash_oid("2.16.840.1.101.3.4.2.2"), Some("SHA-384"));
    assert_eq!(map_hash_oid("2.16.840.1.101.3.4.2.3"), Some("SHA-512"));
    assert_eq!(map_hash_oid("1.2.3"), None);
}

#[test]
fn accuracy_holds_its_parts() {
    let a = TimestampAccuracy { seconds: 1, millis: Some(500), micros: None };
    assert_eq!(a.seconds, 1);
    assert_eq!(a.millis, Some(500));
    assert_eq!(a.micros, None);
}
