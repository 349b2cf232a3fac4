//! Merging configuration-file values into the run settings.
//!
//! Reading and parsing the configuration file is I/O plumbing and lives
//! outside the library; what arrives here is the plain record of values the
//! file held.

use vstd::prelude::*;
use crate::cli::Cli;

verus! {

/// The values a configuration file may supply; each is optional.
#[derive(Debug, Clone)]
pub struct AppConfig {
    pub directory: Option<String>,
    pub current_pattern: Option<String>,
    pub new_pattern: Option<String>,
    pub file_types: Option<Vec<String>>,
    pub dry_run: Option<bool>,
    pub default_season: Option<String>,
    pub title: Option<String>,
    pub depth: Option<usize>,
}

/// Merges configuration-file values into the run settings.  A field given
/// on the command line keeps its value; a field left empty (an empty
/// string, an empty list, a missing title, the default depth of `1`) takes
/// the configuration file's value when the file supplies one.  The dry-run
/// flag is special: a configuration file can only turn an enabled dry run
/// off, never turn a disabled one on.
pub fn merge_config(cli: &mut Cli, config: AppConfig)
    ensures
        final(cli).config == old(cli).config,
        final(cli).directory == (if old(cli).directory@.len() == 0 && config.directory is Some {
            config.directory->0
        } else {
            old(cli).directory
        }),
        final(cli).current_pattern == (if old(cli).current_pattern@.len() == 0
            && config.current_pattern is Some {
            config.current_pattern->0
        } else {
            old(cli).current_pattern
        }),
        final(cli).new_pattern == (if old(cli).new_pattern@.len() == 0
            && config.new_pattern is Some {
            config.new_pattern->0
        } else {
            old(cli).new_pattern
        }),
        final(cli).file_types == (if old(cli).file_types@.len() == 0
            && config.file_types is Some {
            config.file_types->0
        } else {
            old(cli).file_types
        }),
        final(cli).dry_run == (if old(cli).dry_run && config.dry_run is Some {
            config.dry_run->0
        } else {
            old(cli).dry_run
        }),
        final(cli).default_season == (if old(cli).default_season@.len() == 0
            && config.default_season is Some {
            config.default_season->0
        } else {
            old(cli).default_season
        }),
        final(cli).title == (if old(cli).title is None {
            config.title
        } else {
            old(cli).title
        }),
        final(cli).depth == (if old(cli).depth == 1 && config.depth is Some {
            config.depth->0
        } else {
            old(cli).depth
        }),
{
    if cli.directory.as_str().unicode_len() == 0 {
        if let Some(dir) = config.directory {
            cli.directory = dir;
        }
    }
    if cli.current_pattern.as_str().unicode_len() == 0 {
        if let Some(val) = config.current_pattern {
            cli.current_pattern = val;
        }
    }
    if cli.new_pattern.as_str().unicode_len() == 0 {
        if let Some(val) = config.new_pattern {
            cli.new_pattern = val;
        }
    }
    if cli.file_types.len() == 0 {
        if let Some(val) = config.file_types {
            cli.file_types = val;
        }
    }
    if cli.dry_run {
        if let Some(val) = config.dry_run {
            cli.dry_run = val;
        }
    }
    if cli.default_season.as_str().unicode_len() == 0 {
        if let Some(val) = config.default_season {
            cli.default_season = val;
        }
    }
    if cli.title.is_none() {
        cli.title = config.title;
    }
    if cli.depth == 1 {
        if let Some(val) = config.depth {
            cli.depth = val;
        }
    }
}

} // verus!
