//! The run configuration: where to look, how to match, how to rename.
//!
//! Argument parsing itself is I/O plumbing and lives outside the library;
//! this type is the plain value it produces.

use vstd::prelude::*;

verus! {

/// The settings of one renaming run.  Options given on the command line
/// take priority; values read from a configuration file only fill fields
/// the command line left at their defaults (see `merge_config`).
#[derive(Debug, Clone)]
pub struct Cli {
    /// Path to an optional configuration file.
    pub config: Option<String>,
    /// Directory to process.
    pub directory: String,
    /// Regular expression, with named groups, matching the current names.
    pub current_pattern: String,
    /// Template for the new names.
    pub new_pattern: String,
    /// Extensions of the files to process; empty lets everything through.
    pub file_types: Vec<String>,
    /// Report intended changes without renaming anything.
    pub dry_run: bool,
    /// Season value used when the pattern captures none.
    pub default_season: String,
    /// Show title substituted for the `title` placeholder.
    pub title: Option<String>,
    /// How many directory levels to descend into.
    pub depth: usize,
}

} // verus!
