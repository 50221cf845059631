//! The basic schema for core PDF validation and its constraints.

use crate::ast::node::{NodeId, NodeType};
use crate::text::str_eq;
use vstd::prelude::*;

verus! {

/// The basic schema: its name, version and description.
pub struct BasicPdfSchema {
    name: String,
    version: String,
    description: String,
}

impl BasicPdfSchema {
    /// The schema's name.
    pub closed spec fn name_text(&self) -> Seq<char> {
        self.name@
    }

    /// The schema's version.
    pub closed spec fn version_text(&self) -> Seq<char> {
        self.version@
    }

    /// The schema's description.
    pub closed spec fn description_text(&self) -> Seq<char> {
        self.description@
    }

    pub fn new() -> (r: Self)
        ensures
            r.name_text() == "Basic PDF"@,
            r.version_text() == "1.0"@,
            r.description_text() == "Basic PDF document validation"@,
    {
        BasicPdfSchema {
            name: "Basic PDF".to_string(),
            version: "1.0".to_string(),
            description: "Basic PDF document validation".to_string(),
        }
    }

    pub fn name(&self) -> (r: &str)
        ensures
            r@ == self.name_text(),
    {
        self.name.as_str()
    }

    pub fn version(&self) -> (r: &str)
        ensures
            r@ == self.version_text(),
    {
        self.version.as_str()
    }

    pub fn description(&self) -> (r: &str)
        ensures
            r@ == self.description_text(),
    {
        self.description.as_str()
    }
}

impl Default for BasicPdfSchema {
    fn default() -> (r: Self)
        ensures
            r.name_text() == "Basic PDF"@,
            r.version_text() == "1.0"@,
            r.description_text() == "Basic PDF document validation"@,
    {
        Self::new()
    }
}

/// The constraint on the basic structure of a document: it has nodes and a root.
pub struct BasicStructureConstraint;

impl BasicStructureConstraint {
    pub fn name(&self) -> (r: &'static str)
        ensures
            r@ == "BasicStructure"@,
    {
        "BasicStructure"
    }

    pub fn description(&self) -> (r: &'static str)
        ensures
            r@ == "Checks basic PDF document structure"@,
    {
        "Checks basic PDF document structure"
    }
}

/// The constraint on the catalog: the root is a catalog with a type and pages.
pub struct BasicCatalogConstraint;

impl BasicCatalogConstraint {
    pub fn name(&self) -> (r: &'static str)
        ensures
            r@ == "BasicCatalog"@,
    {
        "BasicCatalog"
    }

    pub fn description(&self) -> (r: &'static str)
        ensures
            r@ == "Checks basic catalog requirements"@,
    {
        "Checks basic catalog requirements"
    }
}


/// How serious a validation issue is, among those the basic constraints report.
#[derive(Debug, Clone, Copy, PartialEq, Eq, Structural)]
pub enum ValidationSeverity {
    Error,
    Critical,
}

/// One finding of a validation: its severity, code and message, the node it concerns, the
/// entry it concerns within that node, and what would mend it.
#[derive(Debug, Clone)]
pub struct ValidationIssue {
    pub severity: ValidationSeverity,
    pub code: String,
    pub message: String,
    pub node_id: Option<NodeId>,
    pub location: Option<String>,
    pub suggestion: Option<String>,
}

/// An issue as plain values.
pub type IssueView = (
    ValidationSeverity,
    Seq<char>,
    Seq<char>,
    Option<NodeId>,
    Option<Seq<char>>,
    Option<Seq<char>>,
);

/// The text of an optional string.
pub open spec fn opt_text(o: Option<String>) -> Option<Seq<char>> {
    match o {
        Some(s) => Some(s@),
        None => None,
    }
}

/// An issue as plain values.
pub open spec fn issue_view(i: ValidationIssue) -> IssueView {
    (i.severity, i.code@, i.message@, i.node_id, opt_text(i.location), opt_text(i.suggestion))
}

/// A list of issues as plain values.
pub open spec fn issues_view(s: Seq<ValidationIssue>) -> Seq<IssueView> {
    s.map_values(|i: ValidationIssue| issue_view(i))
}

/// An issue with a suggestion and no node.
pub open spec fn document_issue(
    severity: ValidationSeverity,
    code: Seq<char>,
    message: Seq<char>,
    suggestion: Seq<char>,
) -> IssueView {
    (severity, code, message, None, None, Some(suggestion))
}

/// The issues of the structure check: no nodes, then no root.
pub open spec fn structure_issues(has_nodes: bool, has_root: bool) -> Seq<IssueView> {
    let a = if has_nodes {
        seq![]
    } else {
        seq![
            document_issue(
                ValidationSeverity::Critical,
                "EMPTY_DOCUMENT"@,
                "Document has no nodes"@,
                "Ensure the PDF document was parsed correctly"@,
            ),
        ]
    };
    let b = if has_root {
        seq![]
    } else {
        seq![
            document_issue(
                ValidationSeverity::Critical,
                "NO_ROOT"@,
                "Document has no root node"@,
                "Ensure the document has a valid catalog"@,
            ),
        ]
    };
    a + b
}

/// The number of structure checks passed: one for having nodes, one for having a root.
pub open spec fn structure_passed_checks(has_nodes: bool, has_root: bool) -> nat {
    (if has_nodes {
        1nat
    } else {
        0nat
    }) + (if has_root {
        1nat
    } else {
        0nat
    })
}

/// A new issue with the given text.
fn make_issue(
    severity: ValidationSeverity,
    code: &str,
    message: &str,
    node_id: Option<NodeId>,
    location: Option<&str>,
    suggestion: &str,
) -> (r: ValidationIssue)
    ensures
        issue_view(r) == (
            severity,
            code@,
            message@,
            node_id,
            match location {
                Some(l) => Some(l@),
                None => None::<Seq<char>>,
            },
            Some(suggestion@),
        ),
{
    let loc = match location {
        Some(l) => Some(l.to_string()),
        None => None,
    };
    ValidationIssue {
        severity,
        code: code.to_string(),
        message: message.to_string(),
        node_id,
        location: loc,
        suggestion: Some(suggestion.to_string()),
    }
}

impl BasicStructureConstraint {
    /// Checks that the document has nodes and a root: the issues found, in that order, and
    /// the number of checks passed.
    pub fn check(&self, has_nodes: bool, has_root: bool) -> (r: (
        Vec<ValidationIssue>,
        usize,
    ))
        ensures
            issues_view(r.0@) == structure_issues(has_nodes, has_root),
            r.1 == structure_passed_checks(has_nodes, has_root),
    {
        let mut issues: Vec<ValidationIssue> = Vec::new();
        let mut passed: usize = 0;
        if !has_nodes {
            issues.push(
                make_issue(
                    ValidationSeverity::Critical,
                    "EMPTY_DOCUMENT",
                    "Document has no nodes",
                    None,
                    None,
                    "Ensure the PDF document was parsed correctly",
                ),
            );
        } else {
            passed += 1;
        }
        if !has_root {
            issues.push(
                make_issue(
                    ValidationSeverity::Critical,
                    "NO_ROOT",
                    "Document has no root node",
                    None,
                    None,
                    "Ensure the document has a valid catalog",
                ),
            );
        } else {
            passed += 1;
        }
        assert(issues_view(issues@) =~= structure_issues(has_nodes, has_root));
        (issues, passed)
    }
}

/// The `/Type` entry of a catalog dictionary, as the catalog check reads it.
#[derive(Debug, Clone, PartialEq, Eq)]
pub enum CatalogTypeEntry {
    Missing,
    NotName,
    /// A name, with its leading slash (`/Catalog`).
    Name(String),
}

/// What the catalog check reads of the catalog dictionary.
#[derive(Debug, Clone)]
pub struct CatalogDict {
    pub type_entry: CatalogTypeEntry,
    pub has_pages: bool,
}

/// What the catalog check reads of the root node; `dict` is `None` when the node's value
/// is not a dictionary.
#[derive(Debug, Clone)]
pub struct CatalogRoot {
    pub id: NodeId,
    pub node_type: NodeType,
    pub dict: Option<CatalogDict>,
}

/// An issue about the root node `id`.
pub open spec fn root_issue(
    severity: ValidationSeverity,
    code: Seq<char>,
    message: Seq<char>,
    id: NodeId,
    location: Option<Seq<char>>,
    suggestion: Seq<char>,
) -> IssueView {
    (severity, code, message, Some(id), location, Some(suggestion))
}

/// The issue of the root's kind: none when it is a catalog.
pub open spec fn catalog_kind_issues(r: CatalogRoot) -> Seq<IssueView> {
    if r.node_type == NodeType::Catalog {
        seq![]
    } else {
        seq![
            root_issue(
                ValidationSeverity::Error,
                "ROOT_NOT_CATALOG"@,
                "Root node is not a catalog"@,
                r.id,
                None,
                "Root node should be of type Catalog"@,
            ),
        ]
    }
}

/// The issue of the `/Type` entry: none when it is the name `/Catalog`.
pub open spec fn catalog_type_issues(t: CatalogTypeEntry, id: NodeId) -> Seq<IssueView> {
    match t {
        CatalogTypeEntry::Name(n) => if n@ == "/Catalog"@ {
            seq![]
        } else {
            seq![
                root_issue(
                    ValidationSeverity::Error,
                    "CATALOG_WRONG_TYPE"@,
                    "Catalog Type entry is not 'Catalog'"@,
                    id,
                    Some("Type"@),
                    "Set Type to /Catalog"@,
                ),
            ]
        },
        CatalogTypeEntry::NotName => seq![
            root_issue(
                ValidationSeverity::Error,
                "CATALOG_TYPE_NOT_NAME"@,
                "Catalog Type entry is not a name"@,
                id,
                Some("Type"@),
                "Set Type to /Catalog"@,
            ),
        ],
        CatalogTypeEntry::Missing => seq![
            root_issue(
                ValidationSeverity::Error,
                "CATALOG_NO_TYPE"@,
                "Catalog missing Type entry"@,
                id,
                None,
                "Add Type entry with value /Catalog"@,
            ),
        ],
    }
}

/// The issues of the catalog's value: of its `/Type`, then of its `/Pages`; one critical
/// issue when it is not a dictionary.
pub open spec fn catalog_dict_issues(r: CatalogRoot) -> Seq<IssueView> {
    match r.dict {
        None => seq![
            root_issue(
                ValidationSeverity::Critical,
                "CATALOG_NOT_DICT"@,
                "Catalog is not a dictionary"@,
                r.id,
                None,
                "Catalog must be a dictionary object"@,
            ),
        ],
        Some(d) => catalog_type_issues(d.type_entry, r.id) + if d.has_pages {
            seq![]
        } else {
            seq![
                root_issue(
                    ValidationSeverity::Error,
                    "CATALOG_NO_PAGES"@,
                    "Catalog missing Pages entry"@,
                    r.id,
                    None,
                    "Add Pages entry referencing the page tree"@,
                ),
            ]
        },
    }
}

/// The issues of the catalog check, in order: the root's kind, its `/Type`, its `/Pages`
/// (or that it is not a dictionary); none without a root node.
pub open spec fn catalog_issues(root: Option<CatalogRoot>) -> Seq<IssueView> {
    match root {
        None => seq![],
        Some(r) => catalog_kind_issues(r) + catalog_dict_issues(r),
    }
}

/// One when `b` holds.
pub open spec fn one_if(b: bool) -> nat {
    if b {
        1
    } else {
        0
    }
}

/// The number of catalog checks passed: the root is a catalog, its `/Type` is `/Catalog`,
/// it has `/Pages`.
pub open spec fn catalog_passed_checks(root: Option<CatalogRoot>) -> nat {
    match root {
        None => 0,
        Some(r) => one_if(r.node_type == NodeType::Catalog) + match r.dict {
            None => 0nat,
            Some(d) => one_if(
                d.type_entry matches CatalogTypeEntry::Name(n) && n@ == "/Catalog"@,
            ) + one_if(d.has_pages),
        },
    }
}

/// Checks the catalog of a document whose root node is `root` (`None` when the document
/// has no root, or its root is not among its nodes): the issues found, in order, and the
/// number of checks passed.
pub fn check_basic_catalog(root: Option<CatalogRoot>) -> (r: (Vec<ValidationIssue>, usize))
    ensures
        issues_view(r.0@) == catalog_issues(root),
        r.1 == catalog_passed_checks(root),
{
    let mut issues: Vec<ValidationIssue> = Vec::new();
    let mut passed: usize = 0;
    match &root {
        None => {
            assert(issues_view(issues@) =~= catalog_issues(root));
        },
        Some(rt) => {
            let id = rt.id;
            if rt.node_type == NodeType::Catalog {
                passed += 1;
            } else {
                issues.push(
                    make_issue(
                        ValidationSeverity::Error,
                        "ROOT_NOT_CATALOG",
                        "Root node is not a catalog",
                        Some(id),
                        None,
                        "Root node should be of type Catalog",
                    ),
                );
            }
            let ghost after_kind = issues@;
            assert(issues_view(after_kind) =~= catalog_kind_issues(*rt));
            match &rt.dict {
                None => {
                    issues.push(
                        make_issue(
                            ValidationSeverity::Critical,
                            "CATALOG_NOT_DICT",
                            "Catalog is not a dictionary",
                            Some(id),
                            None,
                            "Catalog must be a dictionary object",
                        ),
                    );
                    assert(issues_view(issues@) =~= issues_view(after_kind) + catalog_dict_issues(
                        *rt,
                    ));
                },
                Some(d) => {
                    match &d.type_entry {
                        CatalogTypeEntry::Name(n) => {
                            if str_eq(n.as_str(), "/Catalog") {
                                passed += 1;
                            } else {
                                issues.push(
                                    make_issue(
                                        ValidationSeverity::Error,
                                        "CATALOG_WRONG_TYPE",
                                        "Catalog Type entry is not 'Catalog'",
                                        Some(id),
                                        Some("Type"),
                                        "Set Type to /Catalog",
                                    ),
                                );
                            }
                        },
                        CatalogTypeEntry::NotName => {
                            issues.push(
                                make_issue(
                                    ValidationSeverity::Error,
                                    "CATALOG_TYPE_NOT_NAME",
                                    "Catalog Type entry is not a name",
                                    Some(id),
                                    Some("Type"),
                                    "Set Type to /Catalog",
                                ),
                            );
                        },
                        CatalogTypeEntry::Missing => {
                            issues.push(
                                make_issue(
                                    ValidationSeverity::Error,
                                    "CATALOG_NO_TYPE",
                                    "Catalog missing Type entry",
                                    Some(id),
                                    None,
                                    "Add Type entry with value /Catalog",
                                ),
                            );
                        },
                    }
                    let ghost after_type = issues@;
                    assert(issues_view(after_type) =~= issues_view(after_kind)
                        + catalog_type_issues(d.type_entry, id));
                    if d.has_pages {
                        passed += 1;
                    } else {
                        issues.push(
                            make_issue(
                                ValidationSeverity::Error,
                                "CATALOG_NO_PAGES",
                                "Catalog missing Pages entry",
                                Some(id),
                                None,
                                "Add Pages entry referencing the page tree",
                            ),
                        );
                    }
                    assert(issues_view(issues@) =~= issues_view(after_kind) + catalog_dict_issues(
                        *rt,
                    ));
                },
            }
            assert(issues_view(issues@) =~= catalog_issues(root));
        },
    }
    (issues, passed)
}

impl BasicCatalogConstraint {
    /// Checks the catalog, as [`check_basic_catalog`] says.
    pub fn check(&self, root: Option<CatalogRoot>) -> (r: (Vec<ValidationIssue>, usize))
        ensures
            issues_view(r.0@) == catalog_issues(root),
            r.1 == catalog_passed_checks(root),
    {
        check_basic_catalog(root)
    }
}


} // verus!
