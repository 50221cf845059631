use pdf_ast::ast::node::{NodeId, NodeType};
use pdf_ast::transform::validator::{
    would_create_cycle, GraphNode, GraphSnapshot, TransformOperation, TransformValidator,
    ValidationResult,
};
use pdf_ast::transform::TransformResult;

fn node(id: usize, node_type: NodeType, children: &[usize]) -> GraphNode {
    GraphNode {
        id: NodeId(id),
        node_type,
        children: children.iter().map(|c| NodeId(*c)).collect(),
    }
}

/// Catalog 0 -> Pages 1 -> Page 2 -> ContentStream 3.
fn document() -> GraphSnapshot {
    GraphSnapshot {
        root: Some(NodeId(0)),
        nodes: vec![
            node(0, NodeType::Catalog, &[1]),
            node(1, NodeType::Pages, &[2]),
            node(2, NodeType::Page, &[3]),
            node(3, NodeType::ContentStream, &[]),
        ],
    }
}

fn error_codes(r: &ValidationResult) -> Vec<String> {
    r.errors.iter().map(|e| e.code.clone()).collect()
}

fn warning_codes(r: &ValidationResult) -> Vec<String> {
    r.warnings.iter().map(|w| w.code.clone()).collect()
}

#[test]
fn replace_checks_presence_kind_and_root() {
    let g = document();
    let missing = TransformValidator::new()
        .validate_operation(&TransformOperation::ReplaceNode { target: NodeId(9), new_type: NodeType::Page }, &g);
    assert!(!missing.is_valid);
    assert_eq!(error_codes(&missing), vec!["REPLACE_TARGET_NOT_FOUND"]);
    assert_eq!(missing.errors[0].message, "Target node 9 not found");
    assert_eq!(missing.errors[0].node_id, Some(NodeId(9)));

    let op = TransformOperation::ReplaceNode { target: NodeId(2), new_type: NodeType::Font };
    let strict = TransformValidator::strict().validate_operation(&op, &g);
    assert!(!strict.is_valid);
    assert_eq!(strict.errors[0].message, "Cannot replace Page with Font in strict mode");
    assert!(TransformValidator::new().validate_operation(&op, &g).is_valid);

    let root = TransformOperation::ReplaceNode { target: NodeId(0), new_type: NodeType::Catalog };
    let guarded = TransformValidator::new().validate_operation(&root, &g);
    assert!(guarded.is_valid);
    assert_eq!(warning_codes(&guarded), vec!["REPLACE_ROOT_NODE"]);
    assert!(TransformValidator::permissive().validate_operation(&root, &g).warnings.is_empty());
}

#[test]
fn insert_checks_parent_and_relationship() {
    let g = document();
    let missing = TransformValidator::new().validate_operation(
        &TransformOperation::InsertChild { parent: NodeId(7), child_type: NodeType::Page, position: None },
        &g,
    );
    assert_eq!(missing.errors[0].message, "Parent node 7 not found");

    let font_in_catalog =
        TransformOperation::InsertChild { parent: NodeId(0), child_type: NodeType::Font, position: Some(0) };
    let strict = TransformValidator::strict().validate_operation(&font_in_catalog, &g);
    assert!(!strict.is_valid);
    assert_eq!(strict.errors[0].code, "INSERT_INVALID_RELATIONSHIP");
    assert_eq!(strict.errors[0].message, "Invalid parent-child relationship: Catalog -> Font");
    assert!(TransformValidator::new().validate_operation(&font_in_catalog, &g).is_valid);

    let page_in_pages =
        TransformOperation::InsertChild { parent: NodeId(1), child_type: NodeType::Page, position: None };
    assert!(TransformValidator::strict().validate_operation(&page_in_pages, &g).is_valid);
}

#[test]
fn remove_refuses_the_root_and_warns_about_children() {
    let g = document();
    let root = TransformValidator::new()
        .validate_operation(&TransformOperation::RemoveNode { target: NodeId(0), preserve_children: false }, &g);
    assert!(!root.is_valid);
    assert_eq!(error_codes(&root), vec!["REMOVE_ROOT_NODE"]);
    assert_eq!(root.errors[0].message, "Cannot remove root node");
    assert_eq!(root.warnings[0].message, "Removing node with 1 children");

    let kept = TransformValidator::new()
        .validate_operation(&TransformOperation::RemoveNode { target: NodeId(2), preserve_children: true }, &g);
    assert!(kept.is_valid);
    assert!(kept.warnings.is_empty());

    let leaf = TransformValidator::new()
        .validate_operation(&TransformOperation::RemoveNode { target: NodeId(3), preserve_children: false }, &g);
    assert!(leaf.is_valid && leaf.warnings.is_empty());
}

#[test]
fn move_refuses_cycles() {
    let g = document();
    let v = TransformValidator::new();
    let into_descendant = v.validate_operation(
        &TransformOperation::MoveNode { target: NodeId(1), new_parent: NodeId(3), position: None },
        &g,
    );
    assert!(!into_descendant.is_valid);
    assert_eq!(error_codes(&into_descendant), vec!["MOVE_CREATES_CYCLE"]);
    assert_eq!(into_descendant.errors[0].message, "Move operation would create a cycle");

    let into_itself = v.validate_operation(
        &TransformOperation::MoveNode { target: NodeId(3), new_parent: NodeId(3), position: None },
        &g,
    );
    assert!(!into_itself.is_valid);

    let missing_parent = v.validate_operation(
        &TransformOperation::MoveNode { target: NodeId(3), new_parent: NodeId(8), position: None },
        &g,
    );
    assert_eq!(missing_parent.errors[0].message, "New parent node 8 not found");
    assert_eq!(missing_parent.errors[0].node_id, Some(NodeId(8)));
}

#[test]
fn move_checks_relationship_in_strict_mode() {
    let g = document();
    let op = TransformOperation::MoveNode { target: NodeId(3), new_parent: NodeId(1), position: Some(0) };
    assert!(TransformValidator::new().validate_operation(&op, &g).is_valid);
    let strict = TransformValidator::strict().validate_operation(&op, &g);
    assert_eq!(error_codes(&strict), vec!["MOVE_INVALID_RELATIONSHIP"]);
    assert_eq!(strict.errors[0].message, "Invalid parent-child relationship: Pages -> ContentStream");
}

#[test]
fn update_and_batch() {
    let g = document();
    let v = TransformValidator::default();
    let missing = v.validate_operation(&TransformOperation::UpdateValue { target: NodeId(5) }, &g);
    assert_eq!(error_codes(&missing), vec!["UPDATE_TARGET_NOT_FOUND"]);
    assert!(v.validate_operation(&TransformOperation::UpdateValue { target: NodeId(2) }, &g).is_valid);

    let batch = TransformOperation::Batch(vec![
        TransformOperation::UpdateValue { target: NodeId(2) },
        TransformOperation::RemoveNode { target: NodeId(6), preserve_children: false },
        TransformOperation::Batch(vec![TransformOperation::ReplaceNode {
            target: NodeId(0),
            new_type: NodeType::Catalog,
        }]),
    ]);
    let r = v.validate_operation(&batch, &g);
    assert!(!r.is_valid);
    assert_eq!(error_codes(&r), vec!["REMOVE_TARGET_NOT_FOUND"]);
    assert_eq!(warning_codes(&r), vec!["REPLACE_ROOT_NODE"]);
    assert!(v.validate_operation(&TransformOperation::Batch(vec![]), &g).is_valid);
}

#[test]
fn cycle_detection_follows_children() {
    let mut g = document();
    assert!(would_create_cycle(NodeId(0), NodeId(3), &g));
    assert!(!would_create_cycle(NodeId(3), NodeId(0), &g));
    assert!(would_create_cycle(NodeId(4), NodeId(4), &g));
    g.nodes.push(node(4, NodeType::Font, &[0]));
    g.nodes[3].children.push(NodeId(4));
    assert!(would_create_cycle(NodeId(3), NodeId(1), &g));
    assert_eq!(g.get_children(NodeId(3)), vec![NodeId(4)]);
    assert_eq!(g.find_node(NodeId(4)), Some(4));
}

#[test]
fn transform_results_record_changes() {
    let r = TransformResult::new()
        .with_added_node(NodeId(1))
        .with_added_node(NodeId(2))
        .with_removed_node(NodeId(3))
        .with_modified_node(NodeId(4));
    assert_eq!(r.nodes_added, vec![NodeId(1), NodeId(2)]);
    assert_eq!(r.nodes_removed, vec![NodeId(3)]);
    assert_eq!(r.nodes_modified, vec![NodeId(4)]);
    assert_eq!(r.edges_added, 0);
    assert!(TransformResult::default().metadata.is_empty());
}

#[test]
fn graph_parents_kinds_and_moves() {
    let mut g = document();
    assert_eq!(g.find_parent(NodeId(2)), Some(NodeId(1)));
    assert_eq!(g.find_parent(NodeId(0)), None);

    assert_eq!(g.update_node_type(NodeId(3), NodeType::Font).unwrap(), NodeType::ContentStream);
    assert_eq!(g.nodes[3].node_type, NodeType::Font);
    match g.update_node_type(NodeId(9), NodeType::Page) {
        Err(pdf_ast::ast::error::AstError::InvalidReferenceString(m)) => assert_eq!(m, "Node NodeId(9) not found"),
        _ => panic!("expected an error"),
    }

    g.move_subtree(NodeId(3), NodeId(1)).unwrap();
    assert_eq!(g.get_children(NodeId(2)), vec![]);
    assert_eq!(g.get_children(NodeId(1)), vec![NodeId(2), NodeId(3)]);
    assert_eq!(g.find_parent(NodeId(3)), Some(NodeId(1)));
    match g.move_subtree(NodeId(3), NodeId(42)) {
        Err(pdf_ast::ast::error::AstError::InvalidReferenceString(m)) => assert_eq!(m, "Invalid node reference"),
        _ => panic!("expected an error"),
    }
}
