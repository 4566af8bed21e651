//! The failures the persistence layer itself can detect.

use vstd::prelude::*;

verus! {

/// Why a load or save cannot proceed. I/O failures are reported by the
/// embedding application, which performs the reads and writes.
#[derive(Debug, PartialEq)]
pub enum PersistError {
    /// The platform yields no configuration directory for the project
    /// namespace: fatal, with the key for context.
    Resolution { project_name: String, file_slug: String },
    /// The on-disk text is not even valid JSON, so merge recovery has nothing
    /// to merge: fatal, after the backup is made.
    UnparsableJson,
    /// The merge-upgraded document still does not decode: the default
    /// skeleton is structurally incompatible with its own type — fatal.
    MergeIncompatible,
}

} // verus!
