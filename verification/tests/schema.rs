use pdf_ast::validation::schema::{BasicCatalogConstraint, BasicPdfSchema, BasicStructureConstraint};

#[test]
fn basic_schema_describes_itself() {
    let schema = BasicPdfSchema::new();
    assert_eq!(schema.name(), "Basic PDF");
    assert_eq!(schema.version(), "1.0");
    assert_eq!(schema.description(), "Basic PDF document validation");
    assert_eq!(BasicPdfSchema::default().name(), "Basic PDF");
}

#[test]
fn basic_constraints_have_names() {
    assert_eq!(BasicStructureConstraint.name(), "BasicStructure");
    assert_eq!(BasicStructureConstraint.description(), "Checks basic PDF document structure");
    assert_eq!(BasicCatalogConstraint.name(), "BasicCatalog");
    assert_eq!(BasicCatalogConstraint.description(), "Checks basic catalog requirements");
}

use pdf_ast::ast::node::{NodeId, NodeType};
use pdf_ast::validation::schema::{
    check_basic_catalog, CatalogDict, CatalogRoot, CatalogTypeEntry, ValidationSeverity,
};

#[test]
fn structure_check_reports_missing_nodes_and_root() {
    let (issues, passed) = BasicStructureConstraint.check(true, true);
    assert!(issues.is_empty());
    assert_eq!(passed, 2);
    let (issues, passed) = BasicStructureConstraint.check(false, false);
    assert_eq!(passed, 0);
    let codes: Vec<&str> = issues.iter().map(|i| i.code.as_str()).collect();
    assert_eq!(codes, vec!["EMPTY_DOCUMENT", "NO_ROOT"]);
    assert_eq!(issues[1].message, "Document has no root node");
    assert_eq!(issues[1].severity, ValidationSeverity::Critical);
    assert_eq!(issues[1].node_id, None);
}

#[test]
fn catalog_check_passes_a_good_catalog() {
    let root = CatalogRoot {
        id: NodeId(1),
        node_type: NodeType::Catalog,
        dict: Some(CatalogDict { type_entry: CatalogTypeEntry::Name("/Catalog".to_string()), has_pages: true }),
    };
    let (issues, passed) = BasicCatalogConstraint.check(Some(root));
    assert!(issues.is_empty());
    assert_eq!(passed, 3);
    let (issues, passed) = check_basic_catalog(None);
    assert!(issues.is_empty());
    assert_eq!(passed, 0);
}

#[test]
fn catalog_check_reports_each_problem_in_order() {
    let root = CatalogRoot {
        id: NodeId(7),
        node_type: NodeType::Page,
        dict: Some(CatalogDict { type_entry: CatalogTypeEntry::Name("/Pages".to_string()), has_pages: false }),
    };
    let (issues, passed) = check_basic_catalog(Some(root));
    assert_eq!(passed, 0);
    let codes: Vec<&str> = issues.iter().map(|i| i.code.as_str()).collect();
    assert_eq!(codes, vec!["ROOT_NOT_CATALOG", "CATALOG_WRONG_TYPE", "CATALOG_NO_PAGES"]);
    assert_eq!(issues[1].location.as_deref(), Some("Type"));
    assert_eq!(issues[1].suggestion.as_deref(), Some("Set Type to /Catalog"));
    assert_eq!(issues[2].node_id, Some(NodeId(7)));

    let root = CatalogRoot {
        id: NodeId(2),
        node_type: NodeType::Catalog,
        dict: Some(CatalogDict { type_entry: CatalogTypeEntry::NotName, has_pages: true }),
    };
    let (issues, passed) = check_basic_catalog(Some(root));
    assert_eq!(passed, 2);
    assert_eq!(issues.len(), 1);
    assert_eq!(issues[0].code, "CATALOG_TYPE_NOT_NAME");

    let root = CatalogRoot {
        id: NodeId(2),
        node_type: NodeType::Catalog,
        dict: Some(CatalogDict { type_entry: CatalogTypeEntry::Missing, has_pages: true }),
    };
    let (issues, _) = check_basic_catalog(Some(root));
    assert_eq!(issues[0].code, "CATALOG_NO_TYPE");
    assert_eq!(issues[0].message, "Catalog missing Type entry");
    assert_eq!(issues[0].location, None);

    let root = CatalogRoot { id: NodeId(2), node_type: NodeType::Catalog, dict: None };
    let (issues, passed) = check_basic_catalog(Some(root));
    assert_eq!(passed, 1);
    assert_eq!(issues.len(), 1);
    assert_eq!(issues[0].code, "CATALOG_NOT_DICT");
    assert_eq!(issues[0].severity, ValidationSeverity::Critical);
}
