use pdf_ast::ast::node::NodeId;
use pdf_ast::ast::provenance::{
    IssueCategory, IssueSeverity, ParseIssue, ProvenanceTracker, TransformationStatus,
    TransformationType, VisibilityContext,
};
use pdf_ast::types::ObjectId;

#[test]
fn parsed_objects_are_recorded_per_node() {
    let mut t = ProvenanceTracker::new(std::time::SystemTime::UNIX_EPOCH, 1_700_000_000, "0.1.0".to_string());
    assert!(t.get_provenance(NodeId(1)).is_none());
    t.record_object_parsed(NodeId(1), ObjectId::new(4, 0), 120, 64, 1_700_000_005, 250);
    t.record_object_parsed(NodeId(2), ObjectId::new(5, 0), 200, 10, 1_700_000_006, 300);
    let p = t.get_provenance(NodeId(1)).unwrap();
    assert_eq!(p.source.file_offset, 120);
    assert_eq!(p.source.object_size, 64);
    assert_eq!(p.source.pdf_version.as_deref(), Some(""));
    assert_eq!(p.parse_timestamp, 1_700_000_005);
    assert_eq!(p.parser_version, "0.1.0");
    assert_eq!(p.parse_mode, "tolerant");
    assert_eq!(p.parse_time_us, 250);
    assert_eq!(p.memory_allocated, 64);
    t.record_object_parsed(NodeId(1), ObjectId::new(4, 0), 999, 1, 1_700_000_007, 5);
    assert_eq!(t.get_provenance(NodeId(1)).unwrap().source.file_offset, 999);
    assert_eq!(t.get_provenance(NodeId(2)).unwrap().source.file_offset, 200);
}

#[test]
fn transformations_and_issues_are_added_to_parsed_nodes_only() {
    let mut t = ProvenanceTracker::new(std::time::SystemTime::UNIX_EPOCH, 10, "0.1.0".to_string());
    t.record_object_parsed(NodeId(1), ObjectId::new(4, 0), 120, 64, 11, 250);
    assert!(t.get_provenance(NodeId(1)).unwrap().transformations.is_empty());

    t.record_decryption(NodeId(1), "AES".to_string(), 128, 12);
    t.record_decompression(NodeId(1), "FlateDecode".to_string(), 64, 512, 13);
    t.record_decompression(NodeId(9), "FlateDecode".to_string(), 1, 2, 14);
    assert!(t.get_provenance(NodeId(9)).is_none());

    let p = t.get_provenance(NodeId(1)).unwrap();
    assert_eq!(p.transformations.len(), 2);
    match &p.transformations[0].transformation_type {
        TransformationType::Decryption { algorithm, key_length, crypt_filter } => {
            assert_eq!(algorithm, "AES");
            assert_eq!(*key_length, 128);
            assert!(crypt_filter.is_none());
        }
        other => panic!("unexpected {:?}", other),
    }
    assert!(matches!(p.transformations[0].status, TransformationStatus::Success));
    assert_eq!(p.transformations[0].timestamp, 12);
    match &p.transformations[1].transformation_type {
        TransformationType::Decompression { filter, predictor, columns } => {
            assert_eq!(filter, "FlateDecode");
            assert!(predictor.is_none() && columns.is_none());
        }
        other => panic!("unexpected {:?}", other),
    }
    assert_eq!(p.transformations[1].original_size, Some(64));
    assert_eq!(p.transformations[1].final_size, Some(512));
    assert_eq!(p.source.file_offset, 120);

    let issue = ParseIssue {
        severity: IssueSeverity::Warning,
        category: IssueCategory::Syntax,
        message: "missing endobj".to_string(),
        location: None,
        suggestion: None,
    };
    t.record_parse_issue(NodeId(1), issue.clone());
    t.record_parse_issue(NodeId(2), issue);
    assert_eq!(t.get_provenance(NodeId(1)).unwrap().parse_issues.len(), 1);
    assert!(t.get_provenance(NodeId(2)).is_none());
    assert_eq!(t.get_all_provenance().len(), 1);

    t.set_visibility_context(vec!["Layer1".to_string()], VisibilityContext::Print);
    t.finalize(42);
    assert_eq!(t.get_document_metadata().parse_duration_ms, 42);
    assert_eq!(t.get_document_metadata().parse_start_time, 10);
    let mut meta = t.get_document_metadata().clone();
    meta.pdf_version = "1.7".to_string();
    t.set_document_metadata(meta);
    assert_eq!(t.get_document_metadata().pdf_version, "1.7");
    assert_eq!(t.get_document_metadata().parse_duration_ms, 42);
}
