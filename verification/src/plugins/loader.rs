//! Plugin loading configuration and the built-in plugins.

use crate::ast::node::NodeType;
use crate::plugins::{node_type_debug_name, texts, PluginCapabilities, PluginMetadata};
use vstd::prelude::*;

verus! {

/// How plugins are loaded.
#[derive(Debug, Clone, Copy, PartialEq, Eq, Structural)]
pub struct LoadConfig {
    pub auto_resolve_dependencies: bool,
    pub allow_version_conflicts: bool,
    pub validate_signatures: bool,
    pub sandbox_mode: bool,
}

impl Default for LoadConfig {
    /// Resolve dependencies, refuse version conflicts, skip signature checks, sandboxed.
    fn default() -> (r: Self)
        ensures
            r.auto_resolve_dependencies,
            !r.allow_version_conflicts,
            !r.validate_signatures,
            r.sandbox_mode,
    {
        LoadConfig {
            auto_resolve_dependencies: true,
            allow_version_conflicts: false,
            validate_signatures: false,
            sandbox_mode: true,
        }
    }
}

/// Built-in plugin factories.
pub struct BuiltinPlugins;

/// The names under which the built-in plugins are created, in the loader's order.
pub open spec fn builtin_plugin_names() -> Seq<Seq<char>> {
    seq![
        "basic_validator"@,
        "basic_transformer"@,
        "structure_analyzer"@,
        "security_scanner"@,
        "metadata_extractor"@,
    ]
}

impl BuiltinPlugins {
    /// The names of all the built-in plugins that can be created by name, each once.
    pub fn list_available() -> (r: Vec<String>)
        ensures
            texts(r@) == builtin_plugin_names(),
            texts(r@).no_duplicates(),
    {
        let mut v: Vec<String> = Vec::new();
        v.push("basic_validator".to_string());
        v.push("basic_transformer".to_string());
        v.push("structure_analyzer".to_string());
        v.push("security_scanner".to_string());
        v.push("metadata_extractor".to_string());
        proof {
            reveal_strlit("basic_validator");
            reveal_strlit("basic_transformer");
            reveal_strlit("structure_analyzer");
            reveal_strlit("security_scanner");
            reveal_strlit("metadata_extractor");
        }
        assert(texts(v@) =~= builtin_plugin_names());
        assert(builtin_plugin_names()[0][6] != builtin_plugin_names()[1][6]);
        assert(builtin_plugin_names()[0][1] != builtin_plugin_names()[2][1]);
        assert(builtin_plugin_names()[0][1] != builtin_plugin_names()[3][1]);
        assert(builtin_plugin_names()[0][0] != builtin_plugin_names()[4][0]);
        assert(builtin_plugin_names()[1][0] != builtin_plugin_names()[2][0]);
        assert(builtin_plugin_names()[1][0] != builtin_plugin_names()[3][0]);
        assert(builtin_plugin_names()[1][0] != builtin_plugin_names()[4][0]);
        assert(builtin_plugin_names()[2][1] != builtin_plugin_names()[3][1]);
        assert(builtin_plugin_names()[2][0] != builtin_plugin_names()[4][0]);
        assert(builtin_plugin_names()[3][0] != builtin_plugin_names()[4][0]);
        v
    }
}

/// The metadata of a built-in plugin: version 1.0.0 by PDF-AST, with the given name,
/// description, tags and supported node kinds, and nothing else set.
pub open spec fn builtin_metadata(
    m: PluginMetadata,
    name: Seq<char>,
    description: Seq<char>,
    tags: Seq<Seq<char>>,
    types: Seq<NodeType>,
) -> bool {
    &&& m.name@ == name
    &&& m.version@ == "1.0.0"@
    &&& m.description@ == description
    &&& m.author@ == "PDF-AST"@
    &&& m.license is None
    &&& m.homepage is None
    &&& m.repository is None
    &&& texts(m.tags@) == tags
    &&& texts(m.supported_node_types@) == types.map_values(|t: NodeType| node_type_debug_name(t))
    &&& m.dependencies@.len() == 0
    &&& m.api_version@ == "0.1.0"@
}

/// The built-in `basic_validator` plugin.
pub struct BasicValidatorPlugin {
    metadata: PluginMetadata,
}

impl BasicValidatorPlugin {
    pub fn new() -> (r: Self)
        ensures
            builtin_metadata(
                r.metadata_spec(),
                "basic_validator"@,
                "Basic document validation plugin"@,
                seq!["validation"@, "builtin"@],
                seq![NodeType::Catalog, NodeType::Pages],
            ),
    {
        let m = PluginMetadata::new("basic_validator", "1.0.0", "Basic document validation plugin", "PDF-AST");
        let mut tags: Vec<&str> = Vec::new();
        tags.push("validation");
        tags.push("builtin");
        let m = m.with_tags(tags);
        let mut types: Vec<NodeType> = Vec::new();
        types.push(NodeType::Catalog);
        types.push(NodeType::Pages);
        let m = m.with_supported_types(types);
        proof {
            assert(texts(m.tags@) =~= seq!["validation"@, "builtin"@]);
            assert(texts(m.supported_node_types@) =~= seq![NodeType::Catalog, NodeType::Pages].map_values(
                |t: NodeType| node_type_debug_name(t),
            ));
        }
        BasicValidatorPlugin { metadata: m }
    }

    /// The plugin's metadata.
    pub closed spec fn metadata_spec(&self) -> PluginMetadata {
        self.metadata
    }

    /// The plugin's metadata.
    pub fn metadata(&self) -> (r: &PluginMetadata)
        ensures
            *r == self.metadata_spec(),
    {
        &self.metadata
    }
}

/// The built-in `basic_transformer` plugin.
pub struct BasicTransformerPlugin {
    metadata: PluginMetadata,
}

impl BasicTransformerPlugin {
    pub fn new() -> (r: Self)
        ensures
            builtin_metadata(
                r.metadata_spec(),
                "basic_transformer"@,
                "Basic document transformation plugin"@,
                seq!["transformation"@, "builtin"@],
                Seq::<NodeType>::empty(),
            ),
    {
        let m = PluginMetadata::new("basic_transformer", "1.0.0", "Basic document transformation plugin", "PDF-AST");
        let mut tags: Vec<&str> = Vec::new();
        tags.push("transformation");
        tags.push("builtin");
        let m = m.with_tags(tags);
        proof {
            assert(texts(m.tags@) =~= seq!["transformation"@, "builtin"@]);
            assert(texts(m.supported_node_types@) =~= Seq::<NodeType>::empty().map_values(
                |t: NodeType| node_type_debug_name(t),
            ));
        }
        BasicTransformerPlugin { metadata: m }
    }

    /// The plugin's metadata.
    pub closed spec fn metadata_spec(&self) -> PluginMetadata {
        self.metadata
    }

    /// The plugin's metadata.
    pub fn metadata(&self) -> (r: &PluginMetadata)
        ensures
            *r == self.metadata_spec(),
    {
        &self.metadata
    }
}

/// The built-in `structure_analyzer` plugin.
pub struct StructureAnalyzerPlugin {
    metadata: PluginMetadata,
}

impl StructureAnalyzerPlugin {
    pub fn new() -> (r: Self)
        ensures
            builtin_metadata(
                r.metadata_spec(),
                "structure_analyzer"@,
                "Analyzes document structure and complexity"@,
                seq!["analysis"@, "builtin"@],
                Seq::<NodeType>::empty(),
            ),
    {
        let m = PluginMetadata::new("structure_analyzer", "1.0.0", "Analyzes document structure and complexity", "PDF-AST");
        let mut tags: Vec<&str> = Vec::new();
        tags.push("analysis");
        tags.push("builtin");
        let m = m.with_tags(tags);
        proof {
            assert(texts(m.tags@) =~= seq!["analysis"@, "builtin"@]);
            assert(texts(m.supported_node_types@) =~= Seq::<NodeType>::empty().map_values(
                |t: NodeType| node_type_debug_name(t),
            ));
        }
        StructureAnalyzerPlugin { metadata: m }
    }

    /// The plugin's metadata.
    pub closed spec fn metadata_spec(&self) -> PluginMetadata {
        self.metadata
    }

    /// The plugin's metadata.
    pub fn metadata(&self) -> (r: &PluginMetadata)
        ensures
            *r == self.metadata_spec(),
    {
        &self.metadata
    }
}

/// The built-in `security_scanner` plugin.
pub struct SecurityScannerPlugin {
    metadata: PluginMetadata,
}

impl SecurityScannerPlugin {
    pub fn new() -> (r: Self)
        ensures
            builtin_metadata(
                r.metadata_spec(),
                "security_scanner"@,
                "Scans for security issues and suspicious patterns"@,
                seq!["security"@, "builtin"@],
                seq![NodeType::JavaScriptAction, NodeType::LaunchAction, NodeType::URIAction, NodeType::EmbeddedFile],
            ),
    {
        let m = PluginMetadata::new("security_scanner", "1.0.0", "Scans for security issues and suspicious patterns", "PDF-AST");
        let mut tags: Vec<&str> = Vec::new();
        tags.push("security");
        tags.push("builtin");
        let m = m.with_tags(tags);
        let mut types: Vec<NodeType> = Vec::new();
        types.push(NodeType::JavaScriptAction);
        types.push(NodeType::LaunchAction);
        types.push(NodeType::URIAction);
        types.push(NodeType::EmbeddedFile);
        let m = m.with_supported_types(types);
        proof {
            assert(texts(m.tags@) =~= seq!["security"@, "builtin"@]);
            assert(texts(m.supported_node_types@) =~= seq![NodeType::JavaScriptAction, NodeType::LaunchAction, NodeType::URIAction, NodeType::EmbeddedFile].map_values(
                |t: NodeType| node_type_debug_name(t),
            ));
        }
        SecurityScannerPlugin { metadata: m }
    }

    /// The plugin's metadata.
    pub closed spec fn metadata_spec(&self) -> PluginMetadata {
        self.metadata
    }

    /// The plugin's metadata.
    pub fn metadata(&self) -> (r: &PluginMetadata)
        ensures
            *r == self.metadata_spec(),
    {
        &self.metadata
    }
}

/// The built-in `metadata_extractor` plugin.
pub struct MetadataExtractorPlugin {
    metadata: PluginMetadata,
}

impl MetadataExtractorPlugin {
    pub fn new() -> (r: Self)
        ensures
            builtin_metadata(
                r.metadata_spec(),
                "metadata_extractor"@,
                "Extracts and consolidates document metadata"@,
                seq!["metadata"@, "builtin"@],
                seq![NodeType::Metadata, NodeType::Catalog],
            ),
    {
        let m = PluginMetadata::new("metadata_extractor", "1.0.0", "Extracts and consolidates document metadata", "PDF-AST");
        let mut tags: Vec<&str> = Vec::new();
        tags.push("metadata");
        tags.push("builtin");
        let m = m.with_tags(tags);
        let mut types: Vec<NodeType> = Vec::new();
        types.push(NodeType::Metadata);
        types.push(NodeType::Catalog);
        let m = m.with_supported_types(types);
        proof {
            assert(texts(m.tags@) =~= seq!["metadata"@, "builtin"@]);
            assert(texts(m.supported_node_types@) =~= seq![NodeType::Metadata, NodeType::Catalog].map_values(
                |t: NodeType| node_type_debug_name(t),
            ));
        }
        MetadataExtractorPlugin { metadata: m }
    }

    /// The plugin's metadata.
    pub closed spec fn metadata_spec(&self) -> PluginMetadata {
        self.metadata
    }

    /// The plugin's metadata.
    pub fn metadata(&self) -> (r: &PluginMetadata)
        ensures
            *r == self.metadata_spec(),
    {
        &self.metadata
    }
}

impl BasicTransformerPlugin {
    /// The transformer changes nodes in place, is thread safe, and does nothing else.
    pub fn capabilities(&self) -> (r: PluginCapabilities)
        ensures
            r == (PluginCapabilities {
                can_modify_nodes: true,
                can_add_nodes: false,
                can_remove_nodes: false,
                can_validate: false,
                can_transform: true,
                requires_document_context: false,
                thread_safe: true,
            }),
    {
        PluginCapabilities {
            can_modify_nodes: true,
            can_add_nodes: false,
            can_remove_nodes: false,
            can_validate: false,
            can_transform: true,
            requires_document_context: false,
            thread_safe: true,
        }
    }
}

} // verus!
