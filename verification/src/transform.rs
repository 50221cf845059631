//! Checking and recording changes to the AST graph.

pub mod validator;

use crate::ast::node::NodeId;
use std::collections::HashMap;
use vstd::prelude::*;

verus! {

/// What a transformation changed: the nodes added, removed and modified, the edges added
/// and removed, and notes about it.
#[derive(Debug, Clone)]
pub struct TransformResult {
    pub nodes_added: Vec<NodeId>,
    pub nodes_removed: Vec<NodeId>,
    pub nodes_modified: Vec<NodeId>,
    pub edges_added: usize,
    pub edges_removed: usize,
    pub metadata: HashMap<String, String>,
}

impl TransformResult {
    /// A result that records no change.
    pub fn new() -> (r: Self)
        ensures
            r.nodes_added@.len() == 0,
            r.nodes_removed@.len() == 0,
            r.nodes_modified@.len() == 0,
            r.edges_added == 0,
            r.edges_removed == 0,
            r.metadata@ == Map::<String, String>::empty(),
    {
        TransformResult {
            nodes_added: Vec::new(),
            nodes_removed: Vec::new(),
            nodes_modified: Vec::new(),
            edges_added: 0,
            edges_removed: 0,
            metadata: HashMap::new(),
        }
    }

    /// The result with `node_id` recorded as added.
    pub fn with_added_node(self, node_id: NodeId) -> (r: Self)
        ensures
            r.nodes_added@ == self.nodes_added@.push(node_id),
            r.nodes_removed@ == self.nodes_removed@,
            r.nodes_modified@ == self.nodes_modified@,
            r.edges_added == self.edges_added,
            r.edges_removed == self.edges_removed,
            r.metadata@ == self.metadata@,
    {
        let mut r = self;
        r.nodes_added.push(node_id);
        r
    }

    /// The result with `node_id` recorded as removed.
    pub fn with_removed_node(self, node_id: NodeId) -> (r: Self)
        ensures
            r.nodes_removed@ == self.nodes_removed@.push(node_id),
            r.nodes_added@ == self.nodes_added@,
            r.nodes_modified@ == self.nodes_modified@,
            r.edges_added == self.edges_added,
            r.edges_removed == self.edges_removed,
            r.metadata@ == self.metadata@,
    {
        let mut r = self;
        r.nodes_removed.push(node_id);
        r
    }

    /// The result with `node_id` recorded as modified.
    pub fn with_modified_node(self, node_id: NodeId) -> (r: Self)
        ensures
            r.nodes_modified@ == self.nodes_modified@.push(node_id),
            r.nodes_added@ == self.nodes_added@,
            r.nodes_removed@ == self.nodes_removed@,
            r.edges_added == self.edges_added,
            r.edges_removed == self.edges_removed,
            r.metadata@ == self.metadata@,
    {
        let mut r = self;
        r.nodes_modified.push(node_id);
        r
    }
}

impl Default for TransformResult {
    fn default() -> (r: Self)
        ensures
            r.nodes_added@.len() == 0,
            r.nodes_removed@.len() == 0,
            r.nodes_modified@.len() == 0,
            r.edges_added == 0,
            r.edges_removed == 0,
            r.metadata@ == Map::<String, String>::empty(),
    {
        Self::new()
    }
}

} // verus!
