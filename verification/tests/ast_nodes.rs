use pdf_ast::ast::node::{ErrorCode, NodeId, NodeMetadata, NodeType, ParseError};
use pdf_ast::bindings::utils::{list_node_types, node_type_to_string, parse_node_type};
use pdf_ast::types::ObjectId;

#[test]
fn node_id_index() {
    let id = NodeId::new(42);
    assert_eq!(id.index(), 42);
    assert_eq!(id, NodeId(42));
}

#[test]
fn metadata_builders() {
    let m = NodeMetadata::new().with_offset(100).with_size(20);
    assert_eq!(m.offset, Some(100));
    assert_eq!(m.size, Some(20));
    assert!(m.errors.is_empty());
    assert!(m.warnings.is_empty());
}

#[test]
fn metadata_properties_replace() {
    let mut m = NodeMetadata::new();
    assert!(m.get_property("Title").is_none());
    m.set_property("Title".to_string(), "First".to_string());
    m.set_property("Author".to_string(), "Someone".to_string());
    m.set_property("Title".to_string(), "Second".to_string());
    assert_eq!(m.get_property("Title"), Some(&"Second".to_string()));
    assert_eq!(m.get_property("Author"), Some(&"Someone".to_string()));
    assert!(m.get_property("Subject").is_none());
    assert_eq!(m.properties.len(), 2);
}

#[test]
fn metadata_errors_and_warnings() {
    let mut m = NodeMetadata::new();
    m.add_error(ParseError::new(ErrorCode::InvalidSyntax, "bad".to_string()));
    m.add_warning("odd".to_string());
    assert_eq!(m.errors.len(), 1);
    assert_eq!(m.errors[0].code, ErrorCode::InvalidSyntax);
    assert_eq!(m.warnings, vec!["odd".to_string()]);
}

#[test]
fn parse_error_builders() {
    let e = ParseError::new(ErrorCode::CorruptedStream, "oops".to_string());
    assert!(!e.recoverable);
    assert_eq!(e.offset, None);
    let e = e.recoverable().at_offset(7);
    assert!(e.recoverable);
    assert_eq!(e.offset, Some(7));
    assert_eq!(e.message, "oops");
}

#[test]
fn parse_known_and_legacy_names() {
    assert_eq!(parse_node_type("Catalog"), Ok(NodeType::Catalog));
    assert_eq!(parse_node_type("EncodedContent"), Ok(NodeType::EncodedContent));
    assert_eq!(parse_node_type("Outline"), Ok(NodeType::Annotation));
    assert_eq!(parse_node_type("Multimedia"), Ok(NodeType::XObject));
    assert_eq!(parse_node_type("Other"), Ok(NodeType::Unknown));
}

#[test]
fn parse_object_names() {
    assert_eq!(parse_node_type("Object(12, 3)"), Ok(NodeType::Object(ObjectId::new(12, 3))));
    assert_eq!(parse_node_type("Object( +7 ,0 )"), Ok(NodeType::Object(ObjectId::new(7, 0))));
    assert!(parse_node_type("Object(1, 70000)").is_err());
    assert!(parse_node_type("Object(1, 2, 3)").is_err());
    assert!(parse_node_type("Object(1 2)").is_err());
    assert!(parse_node_type("Object(-1, 2)").is_err());
}

#[test]
fn unknown_name_message() {
    assert_eq!(parse_node_type("Nope"), Err("Unknown node type: Nope".to_string()));
}

#[test]
fn names_of_kinds() {
    assert_eq!(node_type_to_string(&NodeType::Page), "Page");
    assert_eq!(node_type_to_string(&NodeType::OutlineItem), "OutlineItem");
    assert_eq!(node_type_to_string(&NodeType::Object(ObjectId::new(5, 1))), "Object(5, 1)");
}

#[test]
fn name_roundtrip_for_canonical_kinds() {
    for t in [
        NodeType::Root,
        NodeType::Signature,
        NodeType::CIDFont,
        NodeType::Unknown,
        NodeType::Object(ObjectId::new(4294967295, 65535)),
    ] {
        assert_eq!(parse_node_type(&node_type_to_string(&t)), Ok(t));
    }
}

#[test]
fn listed_names_all_parse() {
    let names = list_node_types();
    assert_eq!(names.len(), 50);
    assert_eq!(names[0], "Root");
    assert_eq!(names[49], "Other");
    for n in names {
        assert!(parse_node_type(n).is_ok());
    }
}

#[test]
fn node_kinds_follow_type_and_subtype() {
    assert_eq!(NodeType::from_dict(Some("Catalog"), None), NodeType::Catalog);
    assert_eq!(NodeType::from_dict(Some("Page"), Some("Image")), NodeType::Page);
    assert_eq!(NodeType::from_dict(Some("XObject"), Some("Image")), NodeType::Image);
    assert_eq!(NodeType::from_dict(Some("XObject"), Some("Form")), NodeType::Resource);
    assert_eq!(NodeType::from_dict(Some("XObject"), None), NodeType::Resource);
    assert_eq!(NodeType::from_dict(Some("Annot"), None), NodeType::Annotation);
    assert_eq!(NodeType::from_dict(Some("Filespec"), None), NodeType::EmbeddedFile);
    assert_eq!(NodeType::from_dict(Some("Sig"), None), NodeType::Signature);
    assert_eq!(NodeType::from_dict(Some("Bogus"), None), NodeType::Unknown);
    assert_eq!(NodeType::from_dict(None, Some("Image")), NodeType::Unknown);
}
