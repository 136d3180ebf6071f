//! Errors surfaced by catalog and state operations.

use vstd::prelude::*;

verus! {

/// The errors that catalog and state operations can report.  Every variant
/// carries the identifier or text needed to render a message at the CLI
/// boundary; the library itself never prints.
#[derive(Debug, Clone)]
pub enum RanddGoalsError {
    /// A task with this slug is already present in the catalog.
    TaskAlreadyExists { slug: String },
    /// No task with this slug exists.
    TaskNotFound { slug: String },
    /// A task exists in the catalog but its runtime state was never loaded.
    TaskStateNotLoaded { slug: String },
    /// An import file has an extension the importer does not understand.
    UnsupportedFileType { extension: String },
    /// An input failed validation before any state was touched.
    Validation { message: String },
    /// Any other failure, described in plain text.
    Other { message: String },
}

} // verus!
