//! Compatibility resolution: first compatible version, first file.

use vstd::prelude::*;
use crate::model::{FetchError, FileEntry, Target, VersionRecord};

verus! {

/// Whether some string in `hay` has exactly the characters of `needle`.
pub open spec fn contains_str(hay: Seq<String>, needle: Seq<char>) -> bool {
    exists|i: int| 0 <= i < hay.len() && hay[i]@ == needle
}

/// A version is compatible when its platform-version list contains the
/// target platform version and its loader list contains the target loader,
/// both compared exactly.
pub open spec fn version_compatible(v: VersionRecord, t: Target) -> bool {
    &&& contains_str(v.game_versions@, t.platform_version@)
    &&& contains_str(v.loaders@, t.loader@)
}

/// The outcome of one version lookup during a project's resolution.
pub enum VersionFetch {
    /// The version record arrived and decoded.
    Fetched(VersionRecord),
    /// The lookup failed; resolution of this project cannot go past it.
    FetchFailed(FetchError),
}

/// How resolving one project ended. Indices point into the list of
/// version lookups that was scanned, in registry order.
pub enum ProjectResolution {
    /// The first compatible version, and a copy of its first file.
    Selected { version_index: usize, file: FileEntry },
    /// The first compatible version has an empty file list: nothing to
    /// download, but no crash either.
    NoFileAvailable { version_index: usize },
    /// Every version was fetched and none was compatible.
    NoCompatibleVersion,
    /// A lookup failed before any compatible version was seen; the
    /// project is abandoned, the run goes on.
    MetadataFailed { version_index: usize, error: FetchError },
}

/// A scan stops at a lookup that failed or at a compatible version.
pub open spec fn decisive(f: VersionFetch, t: Target) -> bool {
    match f {
        VersionFetch::Fetched(v) => version_compatible(v, t),
        VersionFetch::FetchFailed(_) => true,
    }
}

/// Exec test of compatibility membership: does `hay` hold a string equal
/// to `needle`?
pub fn contains_string(hay: &Vec<String>, needle: &String) -> (r: bool)
    ensures
        r == contains_str(hay@, needle@),
{
    let mut i: usize = 0;
    while i < hay.len()
        invariant
            0 <= i <= hay@.len(),
            forall|j: int| 0 <= j < i ==> hay@[j]@ != needle@,
        decreases hay@.len() - i,
    {
        if hay[i] == *needle {
            return true;
        }
        i = i + 1;
    }
    false
}

/// Exec test of the compatibility predicate for one version.
pub fn is_compatible(v: &VersionRecord, t: &Target) -> (r: bool)
    ensures
        r == version_compatible(*v, *t),
{
    contains_string(&v.game_versions, &t.platform_version)
        && contains_string(&v.loaders, &t.loader)
}

/// Resolve one project from its version lookups, scanned in registry
/// order. The scan short-circuits at the first decisive entry: a failed
/// lookup abandons the project, the first compatible version is selected
/// (its first file, or `NoFileAvailable` when it has none) and no later
/// version is examined.
pub fn resolve_project(fetches: &Vec<VersionFetch>, t: &Target) -> (r: ProjectResolution)
    ensures
        match r {
            ProjectResolution::Selected { version_index, file } => {
                &&& 0 <= version_index < fetches@.len()
                &&& fetches@[version_index as int] matches VersionFetch::Fetched(v)
                    && version_compatible(v, *t)
                    && v.files@.len() > 0
                    && file.url@ == v.files@[0].url@
                    && file.filename@ == v.files@[0].filename@
                &&& forall|j: int| 0 <= j < version_index ==> !decisive(fetches@[j], *t)
            },
            ProjectResolution::NoFileAvailable { version_index } => {
                &&& 0 <= version_index < fetches@.len()
                &&& fetches@[version_index as int] matches VersionFetch::Fetched(v)
                    && version_compatible(v, *t)
                    && v.files@.len() == 0
                &&& forall|j: int| 0 <= j < version_index ==> !decisive(fetches@[j], *t)
            },
            ProjectResolution::NoCompatibleVersion => {
                forall|j: int| 0 <= j < fetches@.len() ==> !decisive(fetches@[j], *t)
            },
            ProjectResolution::MetadataFailed { version_index, error } => {
                &&& 0 <= version_index < fetches@.len()
                &&& fetches@[version_index as int] matches VersionFetch::FetchFailed(e)
                    && e == error
                &&& forall|j: int| 0 <= j < version_index ==> !decisive(fetches@[j], *t)
            },
        },
{
    let mut i: usize = 0;
    while i < fetches.len()
        invariant
            0 <= i <= fetches@.len(),
            forall|j: int| 0 <= j < i ==> !decisive(fetches@[j], *t),
        decreases fetches@.len() - i,
    {
        match &fetches[i] {
            VersionFetch::FetchFailed(e) => {
                return ProjectResolution::MetadataFailed { version_index: i, error: *e };
            },
            VersionFetch::Fetched(v) => {
                if is_compatible(v, t) {
                    if v.files.len() > 0 {
                        return ProjectResolution::Selected {
                            version_index: i,
                            file: v.files[0].duplicate(),
                        };
                    } else {
                        return ProjectResolution::NoFileAvailable { version_index: i };
                    }
                }
            },
        }
        i = i + 1;
    }
    ProjectResolution::NoCompatibleVersion
}

} // verus!
