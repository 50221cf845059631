//! The formats a security report can be written in.

use crate::text::{ascii_lowercase, str_eq, to_ascii_lowercase};
use vstd::prelude::*;

verus! {

/// A serialisation format for security reports.
#[derive(Debug, Clone, Copy, PartialEq, Eq, Structural)]
pub enum SecurityOutputFormat {
    Json,
    Yaml,
    Toml,
}

/// The format named by a file extension, letter case aside.
pub open spec fn format_for_extension(ext: Seq<char>) -> Option<SecurityOutputFormat> {
    let e = ascii_lowercase(ext);
    if e == "json"@ {
        Some(SecurityOutputFormat::Json)
    } else if e == "yaml"@ || e == "yml"@ {
        Some(SecurityOutputFormat::Yaml)
    } else if e == "toml"@ {
        Some(SecurityOutputFormat::Toml)
    } else {
        None
    }
}

/// The format named by a file extension: `json`, `yaml` or `yml`, `toml`, in any case of
/// ASCII letters.
pub fn output_format_from_extension(ext: &str) -> (r: Option<SecurityOutputFormat>)
    ensures
        r == format_for_extension(ext@),
{
    let e = to_ascii_lowercase(ext);
    if str_eq(e.as_str(), "json") {
        Some(SecurityOutputFormat::Json)
    } else if str_eq(e.as_str(), "yaml") || str_eq(e.as_str(), "yml") {
        Some(SecurityOutputFormat::Yaml)
    } else if str_eq(e.as_str(), "toml") {
        Some(SecurityOutputFormat::Toml)
    } else {
        None
    }
}

} // verus!
