//! Configuration and outcome of running plugins.

use crate::plugins::{PluginResult, PluginStatistics};
use crate::text::concat_str;
use vstd::prelude::*;

verus! {

/// How plugins are run.
#[derive(Debug, Clone)]
pub struct ExecutionConfig {
    pub parallel_execution: bool,
    pub max_execution_time_ms: Option<u64>,
    pub max_memory_usage_mb: Option<usize>,
    pub abort_on_error: bool,
    pub collect_statistics: bool,
}

impl Default for ExecutionConfig {
    /// Sequential, thirty seconds and 512 MB at most, stopping at the first error.
    fn default() -> (r: Self)
        ensures
            !r.parallel_execution,
            r.max_execution_time_ms == Some(30000u64),
            r.max_memory_usage_mb == Some(512usize),
            r.abort_on_error,
            r.collect_statistics,
    {
        ExecutionConfig {
            parallel_execution: false,
            max_execution_time_ms: Some(30000),
            max_memory_usage_mb: Some(512),
            abort_on_error: true,
            collect_statistics: true,
        }
    }
}

/// What running a set of plugins gave.
#[derive(Debug, Clone)]
pub struct ExecutionSummary {
    pub total_plugins: usize,
    pub successful_plugins: usize,
    pub failed_plugins: usize,
    pub total_execution_time_ms: u64,
    /// The result of each plugin, by name.
    pub plugin_results: Vec<(String, PluginResult)>,
    /// The statistics of each plugin, by name.
    pub statistics: Vec<(String, PluginStatistics)>,
}

/// Why running a plugin failed.
#[derive(Debug, Clone)]
pub enum PluginExecutionError {
    PluginNotFound(String),
    DependencyError(String),
    ExecutionTimeout,
    MemoryLimitExceeded,
    PluginError(String),
}

impl PluginExecutionError {
    /// The text of the error.
    pub open spec fn message_spec(&self) -> Seq<char> {
        match self {
            PluginExecutionError::PluginNotFound(name) => "Plugin not found: "@ + name@,
            PluginExecutionError::DependencyError(msg) => "Dependency error: "@ + msg@,
            PluginExecutionError::ExecutionTimeout => "Plugin execution timeout"@,
            PluginExecutionError::MemoryLimitExceeded => "Plugin memory limit exceeded"@,
            PluginExecutionError::PluginError(msg) => "Plugin error: "@ + msg@,
        }
    }

    /// The text of the error.
    pub fn message(&self) -> (r: String)
        ensures
            r@ == self.message_spec(),
    {
        match self {
            PluginExecutionError::PluginNotFound(name) => concat_str("Plugin not found: ", name.as_str()),
            PluginExecutionError::DependencyError(msg) => concat_str("Dependency error: ", msg.as_str()),
            PluginExecutionError::ExecutionTimeout => "Plugin execution timeout".to_string(),
            PluginExecutionError::MemoryLimitExceeded => "Plugin memory limit exceeded".to_string(),
            PluginExecutionError::PluginError(msg) => concat_str("Plugin error: ", msg.as_str()),
        }
    }
}

} // verus!
