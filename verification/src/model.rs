//! Registry records, the resolution target, and the error taxonomy.

use vstd::prelude::*;

verus! {

/// One downloadable artifact of a version: where it lives and what the
/// local file should be called.
pub struct FileEntry {
    pub url: String,
    pub filename: String,
}

/// A published version of a project: the platform versions and loaders it
/// supports, and its files in registry order.
pub struct VersionRecord {
    pub game_versions: Vec<String>,
    pub loaders: Vec<String>,
    pub files: Vec<FileEntry>,
}

/// A project: its slug and its version identifiers in registry order.
/// The order is significant: resolution takes the first compatible version.
pub struct ProjectRecord {
    pub slug: String,
    pub versions: Vec<String>,
}

/// A curated collection: project identifiers in registry order.
pub struct CollectionRecord {
    pub projects: Vec<String>,
}

/// The pair the whole run resolves against. The loader string is expected
/// to be supplied already trimmed and lower-cased by the caller; registry
/// loader strings are compared exactly as returned.
pub struct Target {
    pub platform_version: String,
    pub loader: String,
}

/// Failure of one metadata lookup.
#[derive(Clone, Copy, Debug, PartialEq, Eq, Structural)]
pub enum FetchError {
    /// Transport-level failure: the request never produced a usable body.
    Network,
    /// The body did not match the expected schema.
    Decode,
}

/// Failure of one file transfer.
#[derive(Clone, Copy, Debug, PartialEq, Eq, Structural)]
pub enum TransferError {
    /// Transport-level failure while streaming the body.
    Network,
    /// Local file creation or write failure.
    Io,
}

impl FileEntry {
    /// Field-for-field copy; `String::clone` keeps the contents.
    pub fn duplicate(&self) -> (r: FileEntry)
        ensures
            r.url@ == self.url@,
            r.filename@ == self.filename@,
    {
        FileEntry { url: self.url.clone(), filename: self.filename.clone() }
    }
}

} // verus!
