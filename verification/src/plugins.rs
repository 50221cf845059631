//! Plugins: their metadata, results, capabilities and the built-in plugin set.

pub mod api;
pub mod loader;
pub mod registry;

pub use api::{ExecutionConfig, ExecutionSummary, PluginExecutionError};
pub use loader::{
    BasicTransformerPlugin, BasicValidatorPlugin, BuiltinPlugins, LoadConfig,
    MetadataExtractorPlugin, SecurityScannerPlugin, StructureAnalyzerPlugin,
};

use crate::ast::node::{node_type_name, NodeId, NodeType};
use crate::bindings::utils::node_type_to_string;
use crate::text::{append_decimal, decimal};
use vstd::prelude::*;

verus! {

/// What running a plugin gave.
#[derive(Debug, Clone)]
pub enum PluginResult {
    Success,
    Modified(Vec<NodeId>),
    Error(String),
    Warning(String),
}

impl PluginResult {
    /// The plugin succeeded, changing nodes or not.
    pub fn is_success(&self) -> (r: bool)
        ensures
            r == (self is Success || self is Modified),
    {
        match self {
            PluginResult::Success | PluginResult::Modified(_) => true,
            _ => false,
        }
    }

    pub fn is_error(&self) -> (r: bool)
        ensures
            r == self is Error,
    {
        match self {
            PluginResult::Error(_) => true,
            _ => false,
        }
    }

    /// The message of an error result.
    pub fn get_error(&self) -> (r: Option<&String>)
        ensures
            match self {
                PluginResult::Error(msg) => r == Some(msg),
                _ => r is None,
            },
    {
        match self {
            PluginResult::Error(msg) => Some(msg),
            _ => None,
        }
    }
}

/// Describes a plugin.
#[derive(Debug, Clone)]
pub struct PluginMetadata {
    pub name: String,
    pub version: String,
    pub description: String,
    pub author: String,
    pub license: Option<String>,
    pub homepage: Option<String>,
    pub repository: Option<String>,
    pub tags: Vec<String>,
    pub supported_node_types: Vec<String>,
    pub dependencies: Vec<String>,
    pub api_version: String,
}

/// The text of each string.
pub open spec fn texts(v: Seq<String>) -> Seq<Seq<char>> {
    v.map_values(|s: String| s@)
}

/// The text of each string slice.
pub open spec fn str_texts(v: Seq<&str>) -> Seq<Seq<char>> {
    v.map_values(|s: &str| s@)
}

/// How a node kind is written for plugins: the name of its variant, with an object
/// node's identifier written out field by field.
pub open spec fn node_type_debug_name(t: NodeType) -> Seq<char> {
    match t {
        NodeType::Object(id) => "Object(ObjectId { number: "@ + decimal(id.number as nat)
            + ", generation: "@ + decimal(id.generation as nat) + " })"@,
        _ => node_type_name(t),
    }
}

/// How a node kind is written for plugins.
pub fn node_type_debug_string(t: &NodeType) -> (r: String)
    ensures
        r@ == node_type_debug_name(*t),
{
    match t {
        NodeType::Object(id) => {
            let mut s = "Object(ObjectId { number: ".to_string();
            append_decimal(&mut s, id.number as u64);
            s.append(", generation: ");
            append_decimal(&mut s, id.generation as u64);
            s.append(" })");
            s
        },
        _ => node_type_to_string(t),
    }
}

impl PluginMetadata {
    /// Metadata with the given name, version, description and author, and nothing else set.
    pub fn new(name: &str, version: &str, description: &str, author: &str) -> (r: Self)
        ensures
            r.name@ == name@,
            r.version@ == version@,
            r.description@ == description@,
            r.author@ == author@,
            r.license is None,
            r.homepage is None,
            r.repository is None,
            r.tags@.len() == 0,
            r.supported_node_types@.len() == 0,
            r.dependencies@.len() == 0,
            r.api_version@ == "0.1.0"@,
    {
        PluginMetadata {
            name: name.to_string(),
            version: version.to_string(),
            description: description.to_string(),
            author: author.to_string(),
            license: None,
            homepage: None,
            repository: None,
            tags: Vec::new(),
            supported_node_types: Vec::new(),
            dependencies: Vec::new(),
            api_version: "0.1.0".to_string(),
        }
    }

    pub fn with_license(self, license: &str) -> (r: Self)
        ensures
            r.license matches Some(l) && l@ == license@,
            r.name == self.name,
            r.version == self.version,
            r.description == self.description,
            r.author == self.author,
            r.homepage == self.homepage,
            r.repository == self.repository,
            r.tags == self.tags,
            r.supported_node_types == self.supported_node_types,
            r.dependencies == self.dependencies,
            r.api_version == self.api_version,
    {
        let mut m = self;
        m.license = Some(license.to_string());
        m
    }

    pub fn with_tags(self, tags: Vec<&str>) -> (r: Self)
        ensures
            texts(r.tags@) == str_texts(tags@),
            r.name == self.name,
            r.version == self.version,
            r.description == self.description,
            r.author == self.author,
            r.license == self.license,
            r.homepage == self.homepage,
            r.repository == self.repository,
            r.supported_node_types == self.supported_node_types,
            r.dependencies == self.dependencies,
            r.api_version == self.api_version,
    {
        let mut out: Vec<String> = Vec::new();
        let mut i: usize = 0;
        while i < tags.len()
            invariant
                i <= tags@.len(),
                out@.len() == i,
                texts(out@) == str_texts(tags@.subrange(0, i as int)),
            decreases tags@.len() - i,
        {
            let t: &str = tags[i];
            let ghost before = out@;
            out.push(t.to_string());
            assert(texts(out@) =~= texts(before).push(t@));
            assert(str_texts(tags@.subrange(0, i + 1)) =~= str_texts(tags@.subrange(0, i as int)).push(t@));
            i += 1;
        }
        assert(tags@.subrange(0, i as int) =~= tags@);
        let mut m = self;
        m.tags = out;
        m
    }

    pub fn with_supported_types(self, types: Vec<NodeType>) -> (r: Self)
        ensures
            texts(r.supported_node_types@) == types@.map_values(
                |t: NodeType| node_type_debug_name(t),
            ),
            r.name == self.name,
            r.version == self.version,
            r.description == self.description,
            r.author == self.author,
            r.license == self.license,
            r.homepage == self.homepage,
            r.repository == self.repository,
            r.tags == self.tags,
            r.dependencies == self.dependencies,
            r.api_version == self.api_version,
    {
        let mut out: Vec<String> = Vec::new();
        let mut i: usize = 0;
        while i < types.len()
            invariant
                i <= types@.len(),
                out@.len() == i,
                texts(out@) == types@.subrange(0, i as int).map_values(
                    |t: NodeType| node_type_debug_name(t),
                ),
            decreases types@.len() - i,
        {
            let name = node_type_debug_string(&types[i]);
            let ghost before = out@;
            let ghost name_text = name@;
            out.push(name);
            assert(texts(out@) =~= texts(before).push(name_text));
            assert(types@.subrange(0, i + 1).map_values(|t: NodeType| node_type_debug_name(t))
                =~= types@.subrange(0, i as int).map_values(|t: NodeType| node_type_debug_name(t)).push(
                node_type_debug_name(types@[i as int]),
            ));
            i += 1;
        }
        assert(types@.subrange(0, i as int) =~= types@);
        let mut m = self;
        m.supported_node_types = out;
        m
    }
}

/// What a plugin can do.
#[derive(Debug, Clone, Copy, PartialEq, Eq, Structural)]
pub struct PluginCapabilities {
    pub can_modify_nodes: bool,
    pub can_add_nodes: bool,
    pub can_remove_nodes: bool,
    pub can_validate: bool,
    pub can_transform: bool,
    pub requires_document_context: bool,
    pub thread_safe: bool,
}

impl Default for PluginCapabilities {
    fn default() -> (r: Self)
        ensures
            !r.can_modify_nodes && !r.can_add_nodes && !r.can_remove_nodes && !r.can_validate
                && !r.can_transform && !r.requires_document_context && !r.thread_safe,
    {
        PluginCapabilities {
            can_modify_nodes: false,
            can_add_nodes: false,
            can_remove_nodes: false,
            can_validate: false,
            can_transform: false,
            requires_document_context: false,
            thread_safe: false,
        }
    }
}

/// Counters and messages collected while plugins run.
#[derive(Debug, Clone)]
pub struct PluginStatistics {
    pub nodes_processed: usize,
    pub nodes_modified: usize,
    pub nodes_added: usize,
    pub nodes_removed: usize,
    pub execution_time_ms: u64,
    pub memory_used_bytes: usize,
    pub errors: Vec<String>,
    pub warnings: Vec<String>,
    pub info_messages: Vec<String>,
}

impl Default for PluginStatistics {
    fn default() -> (r: Self)
        ensures
            r.nodes_processed == 0 && r.nodes_modified == 0 && r.nodes_added == 0
                && r.nodes_removed == 0 && r.execution_time_ms == 0 && r.memory_used_bytes == 0,
            r.errors@.len() == 0 && r.warnings@.len() == 0 && r.info_messages@.len() == 0,
    {
        PluginStatistics {
            nodes_processed: 0,
            nodes_modified: 0,
            nodes_added: 0,
            nodes_removed: 0,
            execution_time_ms: 0,
            memory_used_bytes: 0,
            errors: Vec::new(),
            warnings: Vec::new(),
            info_messages: Vec::new(),
        }
    }
}

} // verus!
