//! An append-only logging library.
//!
//! Given a target file path and a message, the library appends the message to
//! the file at that path, creating missing parent directories and the file
//! itself on first use. When a distinct new file is required and the desired
//! name is taken, it allocates a non-colliding sibling by inserting a numeric
//! suffix such as `(1)` in front of the extension.
//!
//! The path arithmetic (validation, directory prefix, suffix insertion) and
//! the allocate/append algorithms are verified here against an in-memory
//! file-system model ([`fs_model::FsModel`]). A thin unverified shell may run
//! the same decisions against the real file system.

pub mod digits;
pub mod paths;
pub mod fs_model;
pub mod allocate;
pub mod append;
pub mod laws;

use vstd::prelude::*;

verus! {

/// The set of file extensions that a log path may carry.
///
/// Historically both variants were in use: a strict one accepting only
/// `txt`, and a permissive one accepting `txt` and `log`.
#[derive(Clone, Copy, PartialEq, Eq, Structural, Debug)]
pub enum AllowedExts {
    TxtOnly,
    TxtAndLog,
}

/// The errors the library reports. Validation errors are returned at once
/// and nothing is retried; an allocation failure is returned to the caller,
/// never folded into the logged content.
#[derive(Debug)]
pub enum LogError {
    /// The path is empty or its extension is not in the allowed set.
    /// No work was attempted.
    InvalidPath,
    /// Path allocation failed; the payload carries its message text.
    AllocationFailure(String),
}

} // verus!
