//! Usage and code-operation statistics for AI coding assistants (see `models::Provider`): token
//! usage by model and period, file operations and tool calls by model, and daily averages by
//! provider.
use vstd::prelude::*;

pub mod analysis_averages;
pub mod averages;
pub mod batch;
pub mod cli;
pub mod constants;
pub mod day_sets;
pub mod fast_map;
pub mod format;
pub mod gemini;
pub mod json;
pub mod json_text;
pub mod models;
pub mod period;
pub mod pricing;
pub mod sorting;
pub mod text;
pub mod update;
pub mod usage;
pub mod usage_table;
pub mod usage_merge;
pub mod usage_averages;

verus! {

/// Version information: the binary's version, and the Rust and Cargo versions it was built with.
#[derive(Debug, Clone)]
pub struct VersionInfo {
    pub version: String,
    pub rust_version: String,
    pub cargo_version: String,
}

/// Gathers the version information from the three build-time version strings.
pub fn get_version_info(version: &str, rust_version: &str, cargo_version: &str) -> (r: VersionInfo)
    ensures
        r.version@ == version@,
        r.rust_version@ == rust_version@,
        r.cargo_version@ == cargo_version@,
{
    VersionInfo {
        version: version.to_string(),
        rust_version: rust_version.to_string(),
        cargo_version: cargo_version.to_string(),
    }
}

} // verus!
