//! Checks that a change to the AST graph can be made before it is made.

use crate::ast::error::AstError;
use crate::ast::node::{NodeId, NodeType};
use crate::plugins::{node_type_debug_name, node_type_debug_string};
use crate::text::{append_decimal, decimal};
use vstd::prelude::*;

verus! {

/// A node as the checks read it: its identifier, its kind, and its children in order.
pub struct GraphNode {
    pub id: NodeId,
    pub node_type: NodeType,
    pub children: Vec<NodeId>,
}

/// What the checks read of an AST graph: its root and its nodes.
pub struct GraphSnapshot {
    pub root: Option<NodeId>,
    pub nodes: Vec<GraphNode>,
}

/// `i` is the position of the first node of `nodes` with identifier `id`.
pub open spec fn is_first_with(nodes: Seq<GraphNode>, id: NodeId, i: int) -> bool {
    &&& 0 <= i < nodes.len()
    &&& nodes[i].id == id
    &&& forall|j: int| 0 <= j < i ==> nodes[j].id != id
}

/// The position of the node with identifier `id` (the first one, should two share it).
pub open spec fn node_position(g: GraphSnapshot, id: NodeId) -> Option<int> {
    if exists|i: int| is_first_with(g.nodes@, id, i) {
        Some(choose|i: int| is_first_with(g.nodes@, id, i))
    } else {
        None
    }
}

/// The kind of the node `id`, when the graph holds it.
pub open spec fn node_kind(g: GraphSnapshot, id: NodeId) -> Option<NodeType> {
    match node_position(g, id) {
        Some(i) => Some(g.nodes@[i].node_type),
        None => None,
    }
}

/// The children of the node `id`; none when the graph does not hold it.
pub open spec fn children_of(g: GraphSnapshot, id: NodeId) -> Seq<NodeId> {
    match node_position(g, id) {
        Some(i) => g.nodes@[i].children@,
        None => seq![],
    }
}

/// `b` is `a`, or is reached from `a` by following child links at most `k` times.
pub open spec fn reaches_within(g: GraphSnapshot, a: NodeId, b: NodeId, k: nat) -> bool
    decreases k,
{
    a == b || (k > 0 && exists|c: NodeId|
        #[trigger] children_of(g, a).contains(c) && reaches_within(g, c, b, (k - 1) as nat))
}

/// `b` is `a` or one of its descendants.
pub open spec fn reaches(g: GraphSnapshot, a: NodeId, b: NodeId) -> bool {
    exists|k: nat| reaches_within(g, a, b, k)
}

/// A path can be extended by one child link at its end.
proof fn lemma_reaches_step(g: GraphSnapshot, a: NodeId, b: NodeId, c: NodeId, k: nat)
    requires
        reaches_within(g, a, b, k),
        children_of(g, b).contains(c),
    ensures
        reaches_within(g, a, c, k + 1),
    decreases k,
{
    if a == b {
        assert(reaches_within(g, c, c, k));
    } else {
        let d = choose|d: NodeId|
            #[trigger] children_of(g, a).contains(d) && reaches_within(g, d, b, (k - 1) as nat);
        lemma_reaches_step(g, d, b, c, (k - 1) as nat);
        assert(reaches_within(g, d, c, k));
    }
}

/// A set that holds `a` and the children of each of its members holds all that `a` reaches.
proof fn lemma_closed_holds_reached(g: GraphSnapshot, s: Seq<NodeId>, a: NodeId, b: NodeId, k: nat)
    requires
        s.contains(a),
        forall|v: NodeId, c: NodeId|
            s.contains(v) && #[trigger] children_of(g, v).contains(c) ==> s.contains(c),
        reaches_within(g, a, b, k),
    ensures
        s.contains(b),
    decreases k,
{
    if a != b {
        let c = choose|c: NodeId|
            #[trigger] children_of(g, a).contains(c) && reaches_within(g, c, b, (k - 1) as nat);
        lemma_closed_holds_reached(g, s, c, b, (k - 1) as nat);
    }
}

/// The identifiers that occur as children in `nodes`.
pub open spec fn child_ids(nodes: Seq<GraphNode>) -> Set<NodeId>
    decreases nodes.len(),
{
    if nodes.len() == 0 {
        Set::empty()
    } else {
        child_ids(nodes.drop_last()).union(nodes.last().children@.to_set())
    }
}

/// The children in `nodes` are finitely many, and each child of each node is one of them.
proof fn lemma_child_ids(nodes: Seq<GraphNode>)
    ensures
        child_ids(nodes).finite(),
        forall|i: int, c: NodeId|
            0 <= i < nodes.len() && #[trigger] nodes[i].children@.contains(c) ==> child_ids(nodes).contains(c),
    decreases nodes.len(),
{
    if nodes.len() > 0 {
        lemma_child_ids(nodes.drop_last());
        assert forall|i: int, c: NodeId|
            0 <= i < nodes.len() && #[trigger] nodes[i].children@.contains(c) implies child_ids(
            nodes,
        ).contains(c) by {
            if i < nodes.len() - 1 {
                assert(nodes.drop_last()[i] == nodes[i]);
            }
        }
    }
}

impl GraphSnapshot {
    /// The position of the node `id`.
    pub fn find_node(&self, id: NodeId) -> (r: Option<usize>)
        ensures
            match r {
                Some(i) => node_position(*self, id) == Some(i as int),
                None => node_position(*self, id) is None,
            },
    {
        let mut i: usize = 0;
        while i < self.nodes.len()
            invariant
                i <= self.nodes@.len(),
                forall|j: int| 0 <= j < i ==> self.nodes@[j].id != id,
            decreases self.nodes@.len() - i,
        {
            if self.nodes[i].id.0 == id.0 {
                proof {
                    assert(is_first_with(self.nodes@, id, i as int));
                    let q = choose|q: int| is_first_with(self.nodes@, id, q);
                    assert(is_first_with(self.nodes@, id, q));
                    assert(q == i);
                }
                return Some(i);
            }
            i += 1;
        }
        None
    }

    /// The children of the node `id`, in order.
    pub fn get_children(&self, id: NodeId) -> (r: Vec<NodeId>)
        ensures
            r@ == children_of(*self, id),
    {
        match self.find_node(id) {
            Some(i) => self.nodes[i].children.clone(),
            None => Vec::new(),
        }
    }
}

/// `id` is one of `ids`.
fn contains_id(ids: &Vec<NodeId>, id: NodeId) -> (r: bool)
    ensures
        r == ids@.contains(id),
{
    let mut i: usize = 0;
    while i < ids.len()
        invariant
            i <= ids@.len(),
            forall|j: int| 0 <= j < i ==> ids@[j] != id,
        decreases ids@.len() - i,
    {
        if ids[i].0 == id.0 {
            assert(ids@[i as int] == id);
            return true;
        }
        i += 1;
    }
    false
}

/// Moving `target` under `new_parent` would make a cycle: `new_parent` is `target` or one of
/// its descendants, found by a depth-first walk from `target`.
pub fn would_create_cycle(target: NodeId, new_parent: NodeId, graph: &GraphSnapshot) -> (r: bool)
    ensures
        r == reaches(*graph, target, new_parent),
{
    let ghost g = *graph;
    let ghost universe = child_ids(graph.nodes@).insert(target);
    proof {
        lemma_child_ids(graph.nodes@);
    }
    let mut to_check: Vec<NodeId> = vec![target];
    let mut visited: Vec<NodeId> = Vec::new();
    assert(reaches_within(g, target, target, 0));
    assert(to_check@[0] == target);
    while to_check.len() > 0
        invariant
            g == *graph,
            universe == child_ids(graph.nodes@).insert(target),
            universe.finite(),
            forall|i: int, c: NodeId|
                0 <= i < graph.nodes@.len() && #[trigger] graph.nodes@[i].children@.contains(c)
                    ==> child_ids(graph.nodes@).contains(c),
            forall|x: NodeId| #[trigger] to_check@.contains(x) ==> universe.contains(x),
            forall|x: NodeId| #[trigger] visited@.contains(x) ==> universe.contains(x),
            forall|x: NodeId| #[trigger] to_check@.contains(x) ==> reaches(g, target, x),
            forall|x: NodeId| #[trigger] visited@.contains(x) ==> reaches(g, target, x),
            !visited@.contains(new_parent),
            visited@.contains(target) || to_check@.contains(target),
            forall|v: NodeId, c: NodeId|
                visited@.contains(v) && #[trigger] children_of(g, v).contains(c) ==> visited@.contains(c)
                    || to_check@.contains(c),
            visited@.no_duplicates(),
            visited@.len() <= universe.len(),
        decreases universe.len() - visited@.len(), to_check@.len(),
    {
        let ghost before = to_check@;
        let current = to_check.pop().unwrap();
        assert(before == to_check@.push(current));
        assert(before.contains(current)) by {
            assert(before[before.len() - 1] == current);
        }
        assert forall|x: NodeId| #[trigger] to_check@.contains(x) implies before.contains(x) by {
            let i = choose|i: int| 0 <= i < to_check@.len() && to_check@[i] == x;
            assert(before[i] == x);
        }
        if contains_id(&visited, current) {
            continue;
        }
        let ghost old_visited = visited@;
        visited.push(current);
        assert(visited@ == old_visited.push(current));
        assert forall|x: NodeId| #[trigger] visited@.contains(x) implies old_visited.contains(x) || x
            == current by {
            let i = choose|i: int| 0 <= i < visited@.len() && visited@[i] == x;
            if i < old_visited.len() {
                assert(old_visited[i] == x);
            }
        }
        assert(visited@[old_visited.len() as int] == current);
        assert forall|x: NodeId| old_visited.contains(x) implies #[trigger] visited@.contains(x) by {
            let i = choose|i: int| 0 <= i < old_visited.len() && old_visited[i] == x;
            assert(visited@[i] == x);
        }
        proof {
            assert(visited@.no_duplicates()) by {
                assert forall|i: int, j: int|
                    0 <= i < visited@.len() && 0 <= j < visited@.len() && i != j implies visited@[i]
                    != visited@[j] by {
                    if i < old_visited.len() && j < old_visited.len() {
                        assert(old_visited[i] == visited@[i] && old_visited[j] == visited@[j]);
                    } else if i < old_visited.len() {
                        assert(old_visited.contains(visited@[i]));
                    } else {
                        assert(old_visited.contains(visited@[j]));
                    }
                }
            }
            visited@.unique_seq_to_set();
            assert(visited@.to_set().subset_of(universe));
            vstd::set_lib::lemma_len_subset(visited@.to_set(), universe);
        }
        if current.0 == new_parent.0 {
            assert(current == new_parent);
            return true;
        }
        let ghost k_cur = choose|k: nat| reaches_within(g, target, current, k);
        let children = graph.get_children(current);
        let ghost stack_base = to_check@;
        proof {
            assert forall|c: NodeId| children@.contains(c) implies universe.contains(c) by {
                let i = node_position(g, current)->0;
                assert(graph.nodes@[i].children@.contains(c));
            }
            assert forall|c: NodeId| children@.contains(c) implies reaches(g, target, c) by {
                lemma_reaches_step(g, target, current, c, k_cur);
            }
        }
        let mut j: usize = 0;
        while j < children.len()
            invariant
                j <= children@.len(),
                to_check@ == stack_base + children@.subrange(0, j as int),
            decreases children@.len() - j,
        {
            to_check.push(children[j]);
            assert(children@.subrange(0, j + 1) =~= children@.subrange(0, j as int).push(
                children@[j as int],
            ));
            j += 1;
        }
        assert(children@.subrange(0, j as int) =~= children@);
        assert forall|x: NodeId| #[trigger] to_check@.contains(x) implies stack_base.contains(x)
            || children@.contains(x) by {
            let i = choose|i: int| 0 <= i < to_check@.len() && to_check@[i] == x;
            if i < stack_base.len() {
                assert(stack_base[i] == x);
            } else {
                assert(children@[i - stack_base.len()] == x);
            }
        }
        assert forall|x: NodeId| stack_base.contains(x) implies #[trigger] to_check@.contains(x) by {
            let i = choose|i: int| 0 <= i < stack_base.len() && stack_base[i] == x;
            assert(to_check@[i] == x);
        }
        assert forall|x: NodeId| children@.contains(x) implies #[trigger] to_check@.contains(x) by {
            let i = choose|i: int| 0 <= i < children@.len() && children@[i] == x;
            assert(to_check@[stack_base.len() + i] == x);
        }
    }
    proof {
        assert forall|k: nat| !reaches_within(g, target, new_parent, k) by {
            if reaches_within(g, target, new_parent, k) {
                lemma_closed_holds_reached(g, visited@, target, new_parent, k);
            }
        }
    }
    false
}

/// A change to the AST graph, with what the checks read of it: the kinds of the nodes it
/// brings in.
pub enum TransformOperation {
    /// Replace the node `target` with a node of kind `new_type`.
    ReplaceNode { target: NodeId, new_type: NodeType },
    /// Insert a node of kind `child_type` as a child of `parent`.
    InsertChild { parent: NodeId, child_type: NodeType, position: Option<usize> },
    /// Remove the node `target`, keeping its children or not.
    RemoveNode { target: NodeId, preserve_children: bool },
    /// Move the node `target` under `new_parent`.
    MoveNode { target: NodeId, new_parent: NodeId, position: Option<usize> },
    /// Give the node `target` a new value.
    UpdateValue { target: NodeId },
    /// Several changes in order.
    Batch(Vec<TransformOperation>),
}

/// An error found in a change, with its code, its text and the node it concerns.
#[derive(Debug, Clone)]
pub struct ValidationError {
    pub code: String,
    pub message: String,
    pub node_id: Option<NodeId>,
}

/// A warning about a change, with its code, its text and the node it concerns.
#[derive(Debug, Clone)]
pub struct ValidationWarning {
    pub code: String,
    pub message: String,
    pub node_id: Option<NodeId>,
}

/// The outcome of checking a change.
#[derive(Debug, Clone)]
pub struct ValidationResult {
    pub is_valid: bool,
    pub errors: Vec<ValidationError>,
    pub warnings: Vec<ValidationWarning>,
}

/// A finding as its code, its text and its node.
pub type Finding = (Seq<char>, Seq<char>, Option<NodeId>);

/// A checking outcome as validity, errors and warnings.
pub type Report = (bool, Seq<Finding>, Seq<Finding>);

impl ValidationError {
    pub open spec fn finding(&self) -> Finding {
        (self.code@, self.message@, self.node_id)
    }
}

impl ValidationWarning {
    pub open spec fn finding(&self) -> Finding {
        (self.code@, self.message@, self.node_id)
    }
}

impl ValidationResult {
    /// The outcome as validity, errors and warnings.
    pub open spec fn report(&self) -> Report {
        (
            self.is_valid,
            self.errors@.map_values(|e: ValidationError| e.finding()),
            self.warnings@.map_values(|w: ValidationWarning| w.finding()),
        )
    }
}

/// The outcome of two checks in turn: valid when both are, with the errors and warnings of
/// the first, then those of the second.
pub open spec fn combine(a: Report, b: Report) -> Report {
    (a.0 && b.0, a.1 + b.1, a.2 + b.2)
}

/// An outcome with no finding.
pub open spec fn clean() -> Report {
    (true, seq![], seq![])
}

/// An invalid outcome with one error.
pub open spec fn failed(code: Seq<char>, message: Seq<char>, node: NodeId) -> Report {
    (false, seq![(code, message, Some(node))], seq![])
}

/// The text for a node that the graph does not hold.
pub open spec fn missing_text(what: Seq<char>, node: NodeId) -> Seq<char> {
    what + decimal(node.0 as nat) + " not found"@
}

/// The text for a link that the structure of a document does not allow.
pub open spec fn relationship_text(parent: NodeType, child: NodeType) -> Seq<char> {
    "Invalid parent-child relationship: "@ + node_type_debug_name(parent) + " -> "@
        + node_type_debug_name(child)
}

/// The links between kinds that the structure of a document allows.
pub open spec fn allowed_child(parent: NodeType, child: NodeType) -> bool {
    match (parent, child) {
        (NodeType::Catalog, NodeType::Pages) => true,
        (NodeType::Catalog, NodeType::Outline) => true,
        (NodeType::Catalog, NodeType::Metadata) => true,
        (NodeType::Pages, NodeType::Page) => true,
        (NodeType::Pages, NodeType::Pages) => true,
        (NodeType::Page, NodeType::ContentStream) => true,
        (NodeType::Page, NodeType::Annotation) => true,
        (NodeType::Page, NodeType::XObject) => true,
        (NodeType::Page, NodeType::Font) => true,
        _ => false,
    }
}

/// The outcome of checking one change (a batch: each of its changes in turn).
pub open spec fn operation_report(
    strict: bool,
    preserve: bool,
    op: TransformOperation,
    g: GraphSnapshot,
) -> Report
    decreases op, 0nat,
{
    match op {
        TransformOperation::ReplaceNode { target, new_type } => match node_kind(g, target) {
            None => failed("REPLACE_TARGET_NOT_FOUND"@, missing_text("Target node "@, target), target),
            Some(old_type) => {
                let mismatch = strict && old_type != new_type;
                (
                    !mismatch,
                    if mismatch {
                        seq![(
                            "REPLACE_TYPE_MISMATCH"@,
                            "Cannot replace "@ + node_type_debug_name(old_type) + " with "@
                                + node_type_debug_name(new_type) + " in strict mode"@,
                            Some(target),
                        )]
                    } else {
                        seq![]
                    },
                    if g.root == Some(target) && preserve {
                        seq![(
                            "REPLACE_ROOT_NODE"@,
                            "Replacing root node may affect document structure"@,
                            Some(target),
                        )]
                    } else {
                        seq![]
                    },
                )
            },
        },
        TransformOperation::InsertChild { parent, child_type, position: _ } => match node_kind(
            g,
            parent,
        ) {
            None => failed("INSERT_PARENT_NOT_FOUND"@, missing_text("Parent node "@, parent), parent),
            Some(parent_type) => if strict && !allowed_child(parent_type, child_type) {
                failed(
                    "INSERT_INVALID_RELATIONSHIP"@,
                    relationship_text(parent_type, child_type),
                    parent,
                )
            } else {
                clean()
            },
        },
        TransformOperation::RemoveNode { target, preserve_children } => match node_kind(g, target) {
            None => failed("REMOVE_TARGET_NOT_FOUND"@, missing_text("Target node "@, target), target),
            Some(_) => {
                let is_root = g.root == Some(target);
                let n = children_of(g, target).len();
                (
                    !is_root,
                    if is_root {
                        seq![("REMOVE_ROOT_NODE"@, "Cannot remove root node"@, Some(target))]
                    } else {
                        seq![]
                    },
                    if n > 0 && !preserve_children {
                        seq![(
                            "REMOVE_WITH_CHILDREN"@,
                            "Removing node with "@ + decimal(n) + " children"@,
                            Some(target),
                        )]
                    } else {
                        seq![]
                    },
                )
            },
        },
        TransformOperation::MoveNode { target, new_parent, position: _ } => match node_kind(
            g,
            target,
        ) {
            None => failed("MOVE_TARGET_NOT_FOUND"@, missing_text("Target node "@, target), target),
            Some(target_type) => match node_kind(g, new_parent) {
                None => failed(
                    "MOVE_PARENT_NOT_FOUND"@,
                    missing_text("New parent node "@, new_parent),
                    new_parent,
                ),
                Some(parent_type) => {
                    let cycle = reaches(g, target, new_parent);
                    let bad_link = strict && !allowed_child(parent_type, target_type);
                    (
                        !cycle && !bad_link,
                        (if cycle {
                            seq![(
                                "MOVE_CREATES_CYCLE"@,
                                "Move operation would create a cycle"@,
                                Some(target),
                            )]
                        } else {
                            seq![]
                        }) + (if bad_link {
                            seq![(
                                "MOVE_INVALID_RELATIONSHIP"@,
                                relationship_text(parent_type, target_type),
                                Some(target),
                            )]
                        } else {
                            seq![]
                        }),
                        seq![],
                    )
                },
            },
        },
        TransformOperation::UpdateValue { target } => match node_kind(g, target) {
            None => failed("UPDATE_TARGET_NOT_FOUND"@, missing_text("Target node "@, target), target),
            Some(_) => clean(),
        },
        TransformOperation::Batch(ops) => batch_report(strict, preserve, ops@, g, ops@.len() as int),
    }
}

/// The outcome of checking the first `n` changes of `ops` in turn.
pub open spec fn batch_report(
    strict: bool,
    preserve: bool,
    ops: Seq<TransformOperation>,
    g: GraphSnapshot,
    n: int,
) -> Report
    decreases ops, n,
{
    if n <= 0 || n > ops.len() {
        clean()
    } else {
        combine(
            batch_report(strict, preserve, ops, g, n - 1),
            operation_report(strict, preserve, ops[n - 1], g),
        )
    }
}

/// An error finding.
fn error_for(code: &str, message: String, node: NodeId) -> (r: ValidationError)
    ensures
        r.finding() == (code@, message@, Some(node)),
{
    ValidationError { code: code.to_string(), message, node_id: Some(node) }
}

/// A warning finding.
fn warning_for(code: &str, message: String, node: NodeId) -> (r: ValidationWarning)
    ensures
        r.finding() == (code@, message@, Some(node)),
{
    ValidationWarning { code: code.to_string(), message, node_id: Some(node) }
}

/// An outcome with no finding.
fn clean_result() -> (r: ValidationResult)
    ensures
        r.report() == clean(),
{
    let r = ValidationResult { is_valid: true, errors: Vec::new(), warnings: Vec::new() };
    assert(r.report().1 =~= Seq::<Finding>::empty());
    assert(r.report().2 =~= Seq::<Finding>::empty());
    r
}

/// An invalid outcome with one error.
fn failed_result(code: &str, message: String, node: NodeId) -> (r: ValidationResult)
    ensures
        r.report() == failed(code@, message@, node),
{
    let e = error_for(code, message, node);
    let r = ValidationResult { is_valid: false, errors: vec![e], warnings: Vec::new() };
    assert(r.report().1 =~= seq![(code@, message@, Some(node))]);
    assert(r.report().2 =~= Seq::<Finding>::empty());
    r
}

/// The text for a node that the graph does not hold.
fn missing_message(what: &str, node: NodeId) -> (r: String)
    ensures
        r@ == missing_text(what@, node),
{
    let mut m = what.to_string();
    append_decimal(&mut m, node.0 as u64);
    m.append(" not found");
    m
}

/// The text for a link that the structure of a document does not allow.
fn relationship_message(parent: NodeType, child: NodeType) -> (r: String)
    ensures
        r@ == relationship_text(parent, child),
{
    let mut m = "Invalid parent-child relationship: ".to_string();
    let p = node_type_debug_string(&parent);
    m.append(p.as_str());
    m.append(" -> ");
    let c = node_type_debug_string(&child);
    m.append(c.as_str());
    m
}

/// Whether the structure of a document allows a node of kind `child` under one of kind
/// `parent`.
pub fn is_valid_parent_child_relationship(parent: NodeType, child: NodeType) -> (r: bool)
    ensures
        r == allowed_child(parent, child),
{
    match (parent, child) {
        (NodeType::Catalog, NodeType::Pages) => true,
        (NodeType::Catalog, NodeType::Outline) => true,
        (NodeType::Catalog, NodeType::Metadata) => true,
        (NodeType::Pages, NodeType::Page) => true,
        (NodeType::Pages, NodeType::Pages) => true,
        (NodeType::Page, NodeType::ContentStream) => true,
        (NodeType::Page, NodeType::Annotation) => true,
        (NodeType::Page, NodeType::XObject) => true,
        (NodeType::Page, NodeType::Font) => true,
        _ => false,
    }
}

/// Checks changes to the AST graph before they are made. In strict mode it also holds them to
/// the kinds of the nodes; preserving structure, it warns before the root is replaced.
pub struct TransformValidator {
    strict_mode: bool,
    preserve_structure: bool,
}

impl TransformValidator {
    /// Whether the validator is strict.
    pub closed spec fn is_strict(&self) -> bool {
        self.strict_mode
    }

    /// Whether the validator guards the document's structure.
    pub closed spec fn preserves_structure(&self) -> bool {
        self.preserve_structure
    }

    /// Not strict, guarding the structure.
    pub fn new() -> (r: Self)
        ensures
            !r.is_strict(),
            r.preserves_structure(),
    {
        TransformValidator { strict_mode: false, preserve_structure: true }
    }

    /// Strict, guarding the structure.
    pub fn strict() -> (r: Self)
        ensures
            r.is_strict(),
            r.preserves_structure(),
    {
        TransformValidator { strict_mode: true, preserve_structure: true }
    }

    /// Neither strict nor guarding the structure.
    pub fn permissive() -> (r: Self)
        ensures
            !r.is_strict(),
            !r.preserves_structure(),
    {
        TransformValidator { strict_mode: false, preserve_structure: false }
    }

    /// The validator with strict mode set to `strict`.
    pub fn with_strict_mode(self, strict: bool) -> (r: Self)
        ensures
            r.is_strict() == strict,
            r.preserves_structure() == self.preserves_structure(),
    {
        let mut v = self;
        v.strict_mode = strict;
        v
    }

    /// The validator with structure preservation set to `preserve`.
    pub fn with_structure_preservation(self, preserve: bool) -> (r: Self)
        ensures
            r.preserves_structure() == preserve,
            r.is_strict() == self.is_strict(),
    {
        let mut v = self;
        v.preserve_structure = preserve;
        v
    }

    /// Checks `operation` against `graph`: the errors that forbid it and the warnings that
    /// it deserves (for a batch, those of each change in turn).
    pub fn validate_operation(&self, operation: &TransformOperation, graph: &GraphSnapshot) -> (r:
        ValidationResult)
        ensures
            r.report() == operation_report(
                self.is_strict(),
                self.preserves_structure(),
                *operation,
                *graph,
            ),
        decreases operation,
    {
        match operation {
            TransformOperation::ReplaceNode { target, new_type } => self.validate_replace(
                *target,
                *new_type,
                graph,
            ),
            TransformOperation::InsertChild { parent, child_type, position: _ } =>
                self.validate_insert(*parent, *child_type, graph),
            TransformOperation::RemoveNode { target, preserve_children } => self.validate_remove(
                *target,
                *preserve_children,
                graph,
            ),
            TransformOperation::MoveNode { target, new_parent, position: _ } => self.validate_move(
                *target,
                *new_parent,
                graph,
            ),
            TransformOperation::UpdateValue { target } => {
                match graph.find_node(*target) {
                    None => failed_result(
                        "UPDATE_TARGET_NOT_FOUND",
                        missing_message("Target node ", *target),
                        *target,
                    ),
                    Some(_) => clean_result(),
                }
            },
            TransformOperation::Batch(operations) => {
                let mut result = clean_result();
                let mut i: usize = 0;
                while i < operations.len()
                    invariant
                        i <= operations@.len(),
                        *operation == TransformOperation::Batch(*operations),
                        result.report() == batch_report(
                            self.is_strict(),
                            self.preserves_structure(),
                            operations@,
                            *graph,
                            i as int,
                        ),
                    decreases operations@.len() - i,
                {
                    proof {
                        assert(decreases_to!(*operation => (*operation)->Batch_0));
                        assert(decreases_to!(*operations => operations@));
                        assert(decreases_to!(operations@ => operations@[i as int]));
                    }
                    let op_result = self.validate_operation(&operations[i], graph);
                    let ghost before = result.report();
                    let ValidationResult { is_valid, errors, warnings } = op_result;
                    let mut errors = errors;
                    let mut warnings = warnings;
                    let ghost old_errors = result.errors@;
                    let ghost old_warnings = result.warnings@;
                    let ghost new_errors = errors@;
                    let ghost new_warnings = warnings@;
                    result.errors.append(&mut errors);
                    result.warnings.append(&mut warnings);
                    if !is_valid {
                        result.is_valid = false;
                    }
                    assert((old_errors + new_errors).map_values(|e: ValidationError| e.finding())
                        =~= old_errors.map_values(|e: ValidationError| e.finding())
                        + new_errors.map_values(|e: ValidationError| e.finding()));
                    assert((old_warnings + new_warnings).map_values(
                        |w: ValidationWarning| w.finding(),
                    ) =~= old_warnings.map_values(|w: ValidationWarning| w.finding())
                        + new_warnings.map_values(|w: ValidationWarning| w.finding()));
                    i += 1;
                }
                result
            },
        }
    }

    fn validate_replace(&self, target: NodeId, new_type: NodeType, graph: &GraphSnapshot) -> (r:
        ValidationResult)
        ensures
            r.report() == operation_report(
                self.is_strict(),
                self.preserves_structure(),
                TransformOperation::ReplaceNode { target, new_type },
                *graph,
            ),
    {
        let i = match graph.find_node(target) {
            Some(i) => i,
            None => {
                return failed_result(
                    "REPLACE_TARGET_NOT_FOUND",
                    missing_message("Target node ", target),
                    target,
                );
            },
        };
        let old_type = graph.nodes[i].node_type;
        let mut result = clean_result();
        if self.strict_mode && old_type != new_type {
            let mut m = "Cannot replace ".to_string();
            let a = node_type_debug_string(&old_type);
            m.append(a.as_str());
            m.append(" with ");
            let b = node_type_debug_string(&new_type);
            m.append(b.as_str());
            m.append(" in strict mode");
            result.errors.push(error_for("REPLACE_TYPE_MISMATCH", m, target));
            result.is_valid = false;
        }
        let is_root = match graph.root {
            Some(root) => root.0 == target.0,
            None => false,
        };
        if is_root && self.preserve_structure {
            result.warnings.push(
                warning_for(
                    "REPLACE_ROOT_NODE",
                    "Replacing root node may affect document structure".to_string(),
                    target,
                ),
            );
        }
        assert(result.report().1 =~= operation_report(
            self.is_strict(),
            self.preserves_structure(),
            TransformOperation::ReplaceNode { target, new_type },
            *graph,
        ).1);
        assert(result.report().2 =~= operation_report(
            self.is_strict(),
            self.preserves_structure(),
            TransformOperation::ReplaceNode { target, new_type },
            *graph,
        ).2);
        result
    }

    fn validate_insert(&self, parent: NodeId, child_type: NodeType, graph: &GraphSnapshot) -> (r:
        ValidationResult)
        ensures
            r.report() == operation_report(
                self.is_strict(),
                self.preserves_structure(),
                TransformOperation::InsertChild { parent, child_type, position: None },
                *graph,
            ),
    {
        let i = match graph.find_node(parent) {
            Some(i) => i,
            None => {
                return failed_result(
                    "INSERT_PARENT_NOT_FOUND",
                    missing_message("Parent node ", parent),
                    parent,
                );
            },
        };
        let parent_type = graph.nodes[i].node_type;
        if self.strict_mode && !is_valid_parent_child_relationship(parent_type, child_type) {
            return failed_result(
                "INSERT_INVALID_RELATIONSHIP",
                relationship_message(parent_type, child_type),
                parent,
            );
        }
        clean_result()
    }

    fn validate_remove(&self, target: NodeId, preserve_children: bool, graph: &GraphSnapshot) -> (r:
        ValidationResult)
        ensures
            r.report() == operation_report(
                self.is_strict(),
                self.preserves_structure(),
                TransformOperation::RemoveNode { target, preserve_children },
                *graph,
            ),
    {
        if graph.find_node(target).is_none() {
            return failed_result(
                "REMOVE_TARGET_NOT_FOUND",
                missing_message("Target node ", target),
                target,
            );
        }
        let mut result = clean_result();
        let is_root = match graph.root {
            Some(root) => root.0 == target.0,
            None => false,
        };
        if is_root {
            result.errors.push(
                error_for("REMOVE_ROOT_NODE", "Cannot remove root node".to_string(), target),
            );
            result.is_valid = false;
        }
        let children = graph.get_children(target);
        if children.len() > 0 && !preserve_children {
            let mut m = "Removing node with ".to_string();
            append_decimal(&mut m, children.len() as u64);
            m.append(" children");
            result.warnings.push(warning_for("REMOVE_WITH_CHILDREN", m, target));
        }
        assert(result.report().1 =~= operation_report(
            self.is_strict(),
            self.preserves_structure(),
            TransformOperation::RemoveNode { target, preserve_children },
            *graph,
        ).1);
        assert(result.report().2 =~= operation_report(
            self.is_strict(),
            self.preserves_structure(),
            TransformOperation::RemoveNode { target, preserve_children },
            *graph,
        ).2);
        result
    }

    fn validate_move(&self, target: NodeId, new_parent: NodeId, graph: &GraphSnapshot) -> (r:
        ValidationResult)
        ensures
            r.report() == operation_report(
                self.is_strict(),
                self.preserves_structure(),
                TransformOperation::MoveNode { target, new_parent, position: None },
                *graph,
            ),
    {
        let ti = match graph.find_node(target) {
            Some(i) => i,
            None => {
                return failed_result(
                    "MOVE_TARGET_NOT_FOUND",
                    missing_message("Target node ", target),
                    target,
                );
            },
        };
        let pi = match graph.find_node(new_parent) {
            Some(i) => i,
            None => {
                return failed_result(
                    "MOVE_PARENT_NOT_FOUND",
                    missing_message("New parent node ", new_parent),
                    new_parent,
                );
            },
        };
        let mut result = clean_result();
        if would_create_cycle(target, new_parent, graph) {
            result.errors.push(
                error_for(
                    "MOVE_CREATES_CYCLE",
                    "Move operation would create a cycle".to_string(),
                    target,
                ),
            );
            result.is_valid = false;
        }
        if self.strict_mode {
            let target_type = graph.nodes[ti].node_type;
            let parent_type = graph.nodes[pi].node_type;
            if !is_valid_parent_child_relationship(parent_type, target_type) {
                result.errors.push(
                    error_for(
                        "MOVE_INVALID_RELATIONSHIP",
                        relationship_message(parent_type, target_type),
                        target,
                    ),
                );
                result.is_valid = false;
            }
        }
        assert(result.report().1 =~= operation_report(
            self.is_strict(),
            self.preserves_structure(),
            TransformOperation::MoveNode { target, new_parent, position: None },
            *graph,
        ).1);
        assert(result.report().2 =~= operation_report(
            self.is_strict(),
            self.preserves_structure(),
            TransformOperation::MoveNode { target, new_parent, position: None },
            *graph,
        ).2);
        result
    }
}

impl Default for TransformValidator {
    fn default() -> (r: Self)
        ensures
            !r.is_strict(),
            r.preserves_structure(),
    {
        Self::new()
    }
}

/// A batch is valid exactly when each of its changes is, and its errors and warnings are
/// theirs, in order.
pub proof fn lemma_batch_valid_iff_each_valid(
    strict: bool,
    preserve: bool,
    ops: Seq<TransformOperation>,
    g: GraphSnapshot,
    n: int,
)
    requires
        0 <= n <= ops.len(),
    ensures
        batch_report(strict, preserve, ops, g, n).0 <==> forall|i: int|
            0 <= i < n ==> #[trigger] operation_report(strict, preserve, ops[i], g).0,
    decreases n,
{
    if n > 0 {
        lemma_batch_valid_iff_each_valid(strict, preserve, ops, g, n - 1);
        let last = operation_report(strict, preserve, ops[n - 1], g).0;
        assert(batch_report(strict, preserve, ops, g, n).0 == (batch_report(
            strict,
            preserve,
            ops,
            g,
            n - 1,
        ).0 && last));
        if forall|i: int| 0 <= i < n ==> #[trigger] operation_report(strict, preserve, ops[i], g).0 {
            assert forall|i: int| 0 <= i < n - 1 implies #[trigger] operation_report(
                strict,
                preserve,
                ops[i],
                g,
            ).0 by {}
            assert(last);
        }
    }
}

/// Checking a change finds it valid exactly when it finds no error: warnings never make a
/// change invalid. So [`TransformValidator::validate_operation`] reports `is_valid` exactly
/// when its error list is empty.
pub proof fn lemma_valid_iff_no_errors(
    strict: bool,
    preserve: bool,
    op: TransformOperation,
    g: GraphSnapshot,
)
    ensures
        operation_report(strict, preserve, op, g).0 <==> operation_report(
            strict,
            preserve,
            op,
            g,
        ).1.len() == 0,
    decreases op, 0nat,
{
    match op {
        TransformOperation::Batch(ops) => {
            lemma_batch_valid_iff_no_errors(strict, preserve, ops@, g, ops@.len() as int);
        },
        _ => {},
    }
}

/// The first `n` changes of a batch are valid together exactly when they give no error.
pub proof fn lemma_batch_valid_iff_no_errors(
    strict: bool,
    preserve: bool,
    ops: Seq<TransformOperation>,
    g: GraphSnapshot,
    n: int,
)
    ensures
        batch_report(strict, preserve, ops, g, n).0 <==> batch_report(
            strict,
            preserve,
            ops,
            g,
            n,
        ).1.len() == 0,
    decreases ops, n,
{
    if 0 < n <= ops.len() {
        lemma_batch_valid_iff_no_errors(strict, preserve, ops, g, n - 1);
        lemma_valid_iff_no_errors(strict, preserve, ops[n - 1], g);
    }
}

/// A strict validator accepts a new child under a parent exactly when the link is one a
/// document's structure has: a catalog holds pages, an outline or metadata; a page tree
/// holds pages or page trees; a page holds content streams, annotations, XObjects and
/// fonts. A refused insert reports that one error and nothing else. A permissive validator
/// accepts any insert under a parent the graph holds.
pub proof fn lemma_insert_links(
    preserve: bool,
    g: GraphSnapshot,
    parent: NodeId,
    parent_type: NodeType,
    child_type: NodeType,
    position: Option<usize>,
)
    requires
        node_kind(g, parent) == Some(parent_type),
    ensures
        ({
            let op = TransformOperation::InsertChild { parent, child_type, position };
            let strict = operation_report(true, preserve, op, g);
            let link = (parent_type == NodeType::Catalog && (child_type == NodeType::Pages
                || child_type == NodeType::Outline || child_type == NodeType::Metadata)) || (
            parent_type == NodeType::Pages && (child_type == NodeType::Page || child_type
                == NodeType::Pages)) || (parent_type == NodeType::Page && (child_type
                == NodeType::ContentStream || child_type == NodeType::Annotation || child_type
                == NodeType::XObject || child_type == NodeType::Font));
            &&& strict.0 == link
            &&& link ==> strict.1.len() == 0 && strict.2.len() == 0
            &&& !link ==> strict.1 == seq![
                (
                    "INSERT_INVALID_RELATIONSHIP"@,
                    relationship_text(parent_type, child_type),
                    Some(parent),
                ),
            ]
            &&& operation_report(false, preserve, op, g) == clean()
        }),
{
}

/// Moving a node under itself or under one of its descendants is refused, whatever the mode.
pub proof fn lemma_move_into_own_subtree_refused(
    strict: bool,
    preserve: bool,
    g: GraphSnapshot,
    target: NodeId,
    new_parent: NodeId,
    position: Option<usize>,
)
    requires
        reaches(g, target, new_parent),
    ensures
        !operation_report(
            strict,
            preserve,
            TransformOperation::MoveNode { target, new_parent, position },
            g,
        ).0,
{
}


/// The position of the first node, from the `i`-th on, that has `id` among its children; -1
/// when none has.
pub open spec fn parent_index(nodes: Seq<GraphNode>, id: NodeId, i: int) -> int
    decreases nodes.len() - i,
{
    if i < 0 || i >= nodes.len() {
        -1
    } else if nodes[i].children@.contains(id) {
        i
    } else {
        parent_index(nodes, id, i + 1)
    }
}

/// The parent of `id`: the first node that has it among its children.
pub open spec fn parent_of(g: GraphSnapshot, id: NodeId) -> Option<NodeId> {
    let k = parent_index(g.nodes@, id, 0);
    if k >= 0 {
        Some(g.nodes@[k].id)
    } else {
        None
    }
}

/// `s` without its first `x`.
pub open spec fn remove_first(s: Seq<NodeId>, x: NodeId) -> Seq<NodeId>
    decreases s.len(),
{
    if s.len() == 0 {
        s
    } else if s[0] == x {
        s.drop_first()
    } else {
        seq![s[0]] + remove_first(s.drop_first(), x)
    }
}

/// The children of node `j` after `root` is moved under `new_parent`: taken from the
/// children of its parent, then added last to those of the new parent.
pub open spec fn children_after_move(g: GraphSnapshot, root: NodeId, new_parent: NodeId, j: int) -> Seq<
    NodeId,
> {
    let k = parent_index(g.nodes@, root, 0);
    let c = if j == k {
        remove_first(g.nodes@[j].children@, root)
    } else {
        g.nodes@[j].children@
    };
    if node_position(g, new_parent) == Some(j) {
        c.push(root)
    } else {
        c
    }
}

/// `id` written as `{:?}` writes it.
pub open spec fn node_id_debug(id: NodeId) -> Seq<char> {
    "NodeId("@ + decimal(id.0 as nat) + ")"@
}

/// The first node, from the `i`-th on, that has `id` among its children.
fn find_parent_index(nodes: &Vec<GraphNode>, id: NodeId) -> (r: Option<usize>)
    ensures
        match r {
            Some(k) => parent_index(nodes@, id, 0) == k as int && k < nodes@.len(),
            None => parent_index(nodes@, id, 0) == -1,
        },
{
    let mut i: usize = 0;
    while i < nodes.len()
        invariant
            i <= nodes@.len(),
            parent_index(nodes@, id, 0) == parent_index(nodes@, id, i as int),
        decreases nodes@.len() - i,
    {
        if contains_id(&nodes[i].children, id) {
            return Some(i);
        }
        i += 1;
    }
    None
}

/// A copy of a list of identifiers.
fn copy_ids(ids: &Vec<NodeId>) -> (r: Vec<NodeId>)
    ensures
        r@ == ids@,
{
    let mut out: Vec<NodeId> = Vec::new();
    let mut i: usize = 0;
    while i < ids.len()
        invariant
            i <= ids@.len(),
            out@ == ids@.subrange(0, i as int),
        decreases ids@.len() - i,
    {
        out.push(ids[i]);
        assert(out@ =~= ids@.subrange(0, i + 1));
        i += 1;
    }
    assert(out@ =~= ids@);
    out
}

/// `ids` without its first `x`.
fn without_first(ids: &Vec<NodeId>, x: NodeId) -> (r: Vec<NodeId>)
    ensures
        r@ == remove_first(ids@, x),
{
    let mut out: Vec<NodeId> = Vec::new();
    let mut i: usize = 0;
    let mut found = false;
    assert(ids@.subrange(0, ids@.len() as int) =~= ids@);
    assert(out@ + ids@ =~= ids@);
    while i < ids.len()
        invariant
            i <= ids@.len(),
            !found ==> out@ + remove_first(ids@.subrange(i as int, ids@.len() as int), x) == remove_first(ids@, x),
            found ==> out@ + ids@.subrange(i as int, ids@.len() as int) == remove_first(ids@, x),
        decreases ids@.len() - i,
    {
        let ghost rest = ids@.subrange(i as int, ids@.len() as int);
        assert(rest[0] == ids@[i as int]);
        assert(rest.drop_first() =~= ids@.subrange(i + 1, ids@.len() as int));
        if !found && ids[i].0 == x.0 {
            found = true;
            assert(out@ + ids@.subrange(i + 1, ids@.len() as int) == remove_first(ids@, x));
        } else {
            if !found {
                assert(out@.push(ids@[i as int]) + remove_first(ids@.subrange(i + 1, ids@.len() as int), x)
                    =~= out@ + remove_first(rest, x));
            } else {
                assert(out@.push(ids@[i as int]) + ids@.subrange(i + 1, ids@.len() as int) =~= out@ + rest);
            }
            out.push(ids[i]);
        }
        i += 1;
    }
    assert(ids@.subrange(i as int, ids@.len() as int) =~= Seq::<NodeId>::empty());
    assert(out@ + Seq::<NodeId>::empty() =~= out@);
    out
}

/// The text `Node {:?} not found` for `id`.
fn node_not_found(id: NodeId) -> (r: String)
    ensures
        r@ == "Node "@ + node_id_debug(id) + " not found"@,
{
    let mut m = "Node ".to_string();
    m.append("NodeId(");
    append_decimal(&mut m, id.0 as u64);
    m.append(")");
    m.append(" not found");
    assert(m@ =~= "Node "@ + node_id_debug(id) + " not found"@);
    m
}

impl GraphSnapshot {
    /// The parent of node `id`, as [`parent_of`] says.
    pub fn find_parent(&self, id: NodeId) -> (r: Option<NodeId>)
        ensures
            r == parent_of(*self, id),
    {
        match find_parent_index(&self.nodes, id) {
            Some(k) => Some(self.nodes[k].id),
            None => None,
        }
    }

    /// Gives node `id` the kind `new_type` and returns its former kind; an error naming the
    /// node when the graph does not hold it.
    pub fn update_node_type(&mut self, id: NodeId, new_type: NodeType) -> (r: Result<NodeType, AstError>)
        ensures
            final(self).root == old(self).root,
            final(self).nodes@.len() == old(self).nodes@.len(),
            match node_position(*old(self), id) {
                None => (r matches Err(AstError::InvalidReferenceString(m)) && m@ == "Node "@
                    + node_id_debug(id) + " not found"@) && final(self).nodes@ == old(self).nodes@,
                Some(i) => r == Ok::<NodeType, AstError>(old(self).nodes@[i].node_type) && (forall|j: int|
                    0 <= j < old(self).nodes@.len() && j != i ==> #[trigger] final(self).nodes@[j]
                        == old(self).nodes@[j]) && final(self).nodes@[i].id == id
                    && final(self).nodes@[i].node_type == new_type && final(self).nodes@[i].children@
                    == old(self).nodes@[i].children@,
            },
    {
        match self.find_node(id) {
            None => Err(AstError::InvalidReferenceString(node_not_found(id))),
            Some(i) => {
                let old_type = self.nodes[i].node_type;
                let children = copy_ids(&self.nodes[i].children);
                let node_id = self.nodes[i].id;
                self.nodes.set(i, GraphNode { id: node_id, node_type: new_type, children });
                Ok(old_type)
            },
        }
    }

    /// Moves node `subtree_root` under `new_parent`: it leaves the children of its parent
    /// (its first place there) and becomes the last child of `new_parent`; an error when the
    /// graph does not hold either node.
    pub fn move_subtree(&mut self, subtree_root: NodeId, new_parent: NodeId) -> (r: Result<(), AstError>)
        ensures
            final(self).root == old(self).root,
            node_position(*old(self), subtree_root) is None || node_position(*old(self), new_parent) is None
                ==> (r matches Err(AstError::InvalidReferenceString(m)) && m@ == "Invalid node reference"@)
                && final(self).nodes@ == old(self).nodes@,
            node_position(*old(self), subtree_root) is Some && node_position(*old(self), new_parent) is Some
                ==> r is Ok && final(self).nodes@.len() == old(self).nodes@.len() && forall|j: int|
                0 <= j < old(self).nodes@.len() ==> (#[trigger] final(self).nodes@[j]).id == old(self).nodes@[j].id
                    && final(self).nodes@[j].node_type == old(self).nodes@[j].node_type
                    && final(self).nodes@[j].children@ == children_after_move(
                    *old(self),
                    subtree_root,
                    new_parent,
                    j,
                ),
    {
        let root_pos = self.find_node(subtree_root);
        let parent_pos = self.find_node(new_parent);
        if root_pos.is_none() || parent_pos.is_none() {
            return Err(AstError::InvalidReferenceString("Invalid node reference".to_string()));
        }
        let np = parent_pos.unwrap();
        let ghost g0 = *self;
        if let Some(k) = find_parent_index(&self.nodes, subtree_root) {
            let children = without_first(&self.nodes[k].children, subtree_root);
            let node_id = self.nodes[k].id;
            let node_type = self.nodes[k].node_type;
            self.nodes.set(k, GraphNode { id: node_id, node_type, children });
        }
        let mut children = copy_ids(&self.nodes[np].children);
        children.push(subtree_root);
        let node_id = self.nodes[np].id;
        let node_type = self.nodes[np].node_type;
        self.nodes.set(np, GraphNode { id: node_id, node_type, children });
        proof {
            assert forall|j: int| 0 <= j < g0.nodes@.len() implies (#[trigger] self.nodes@[j]).id == g0.nodes@[j].id
                && self.nodes@[j].node_type == g0.nodes@[j].node_type
                && self.nodes@[j].children@ == children_after_move(g0, subtree_root, new_parent, j) by {}
        }
        Ok(())
    }
}
} // verus!
