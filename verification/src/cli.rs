//! The commands and options of the command line.
use vstd::prelude::*;
use std::path::PathBuf;

verus! {

#[verifier::external_type_specification]
#[verifier::external_body]
pub struct ExPathBuf(PathBuf);

/// The parsed command line.
#[derive(Debug)]
pub struct Cli {
    pub command: Commands,
}

/// The commands.
#[derive(Debug)]
pub enum Commands {
    /// Analyze JSONL conversation files (single file or all sessions).
    Analysis { path: Option<PathBuf>, output: Option<PathBuf>, all: bool, table: bool },
    /// Display token usage statistics.
    Usage { json: bool, text: bool, table: bool, days: bool, weekly: bool },
    /// Display version information.
    Version { json: bool, text: bool },
    /// Update to the latest version from GitHub releases.
    Update { check: bool, force: bool },
}

} // verus!
