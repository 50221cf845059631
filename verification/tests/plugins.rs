use pdf_ast::ast::node::{NodeId, NodeType};
use pdf_ast::plugins::api::{ExecutionConfig, PluginExecutionError};
use pdf_ast::plugins::loader::{
    BasicTransformerPlugin, BasicValidatorPlugin, BuiltinPlugins, LoadConfig,
    MetadataExtractorPlugin, SecurityScannerPlugin, StructureAnalyzerPlugin,
};
use pdf_ast::plugins::{PluginCapabilities, PluginMetadata, PluginResult, PluginStatistics};
use pdf_ast::types::ObjectId;

#[test]
fn plugin_results() {
    assert!(PluginResult::Success.is_success());
    assert!(PluginResult::Modified(vec![NodeId(1)]).is_success());
    assert!(!PluginResult::Warning("w".to_string()).is_success());
    let e = PluginResult::Error("broken".to_string());
    assert!(e.is_error());
    assert!(!e.is_success());
    assert_eq!(e.get_error(), Some(&"broken".to_string()));
    assert_eq!(PluginResult::Success.get_error(), None);
}

#[test]
fn plugin_metadata_builders() {
    let m = PluginMetadata::new("p", "2.0", "desc", "me")
        .with_license("MIT")
        .with_tags(vec!["a", "b"])
        .with_supported_types(vec![NodeType::Page, NodeType::Object(ObjectId::new(3, 1))]);
    assert_eq!(m.name, "p");
    assert_eq!(m.license, Some("MIT".to_string()));
    assert_eq!(m.tags, vec!["a".to_string(), "b".to_string()]);
    assert_eq!(
        m.supported_node_types,
        vec!["Page".to_string(), "Object(ObjectId { number: 3, generation: 1 })".to_string()]
    );
    assert_eq!(m.api_version, "0.1.0");
}

#[test]
fn debug_names_match_rust_debug() {
    let t = NodeType::Object(ObjectId::new(3, 1));
    assert_eq!(pdf_ast::plugins::node_type_debug_string(&t), format!("{:?}", t));
    assert_eq!(pdf_ast::plugins::node_type_debug_string(&NodeType::ICCBased), format!("{:?}", NodeType::ICCBased));
}

#[test]
fn builtin_plugins() {
    assert_eq!(
        BuiltinPlugins::list_available(),
        vec![
            "basic_validator".to_string(),
            "basic_transformer".to_string(),
            "structure_analyzer".to_string(),
            "security_scanner".to_string(),
            "metadata_extractor".to_string(),
        ]
    );
    let v = BasicValidatorPlugin::new();
    assert_eq!(v.metadata().name, "basic_validator");
    assert_eq!(v.metadata().supported_node_types, vec!["Catalog".to_string(), "Pages".to_string()]);
    assert_eq!(v.metadata().tags, vec!["validation".to_string(), "builtin".to_string()]);
    let s = SecurityScannerPlugin::new();
    assert_eq!(s.metadata().supported_node_types.len(), 4);
    assert_eq!(StructureAnalyzerPlugin::new().metadata().author, "PDF-AST");
    assert_eq!(MetadataExtractorPlugin::new().metadata().version, "1.0.0");
    let t = BasicTransformerPlugin::new();
    assert!(t.metadata().supported_node_types.is_empty());
    let caps = t.capabilities();
    assert!(caps.can_modify_nodes && caps.can_transform && caps.thread_safe);
    assert!(!caps.can_add_nodes && !caps.can_remove_nodes);
}

#[test]
fn plugin_defaults() {
    let c = PluginCapabilities::default();
    assert!(!c.can_modify_nodes);
    let s = PluginStatistics::default();
    assert_eq!(s.nodes_processed, 0);
    let l = LoadConfig::default();
    assert!(l.auto_resolve_dependencies && l.sandbox_mode);
    assert!(!l.allow_version_conflicts && !l.validate_signatures);
    let e = ExecutionConfig::default();
    assert_eq!(e.max_execution_time_ms, Some(30000));
    assert_eq!(e.max_memory_usage_mb, Some(512));
    assert!(e.abort_on_error);
}

#[test]
fn execution_error_messages() {
    assert_eq!(PluginExecutionError::PluginNotFound("x".to_string()).message(), "Plugin not found: x");
    assert_eq!(PluginExecutionError::ExecutionTimeout.message(), "Plugin execution timeout");
    assert_eq!(PluginExecutionError::PluginError("y".to_string()).message(), "Plugin error: y");
}
