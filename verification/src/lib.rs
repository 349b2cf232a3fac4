//! A batch file-renaming library.
//!
//! The core is a name-transformation engine: a regular expression with
//! named capture groups extracts fields from an existing file name, and a
//! template with `{name}` / `{name:width}` placeholders renders the new
//! name, preserving the original file's extension.  Everything here is a
//! pure function of its inputs; directory traversal, confirmation and the
//! rename call itself belong to the surrounding program.

use vstd::prelude::*;

pub mod cli;
pub mod config;
pub mod error;
pub mod extract;
pub mod file_ops;
pub mod paths;
pub mod renamer;
pub mod template;
pub mod text;
pub mod transform;

pub use cli::Cli;
pub use config::{merge_config, AppConfig};
pub use error::RenamerError;
pub use file_ops::should_process_file;
pub use renamer::{check_warning, transform_filename, PlannedRename};

verus! {

} // verus!
