//! Registry endpoints and destination paths.
//!
//! The client issues exactly one GET per record, against a fixed base
//! endpoint templated with the record's identifier. These functions build
//! those request URLs, and the local path a selected file is written to,
//! with the exact concatenation stated in their contracts. The requests
//! themselves, and the decoding of the JSON bodies into the records of
//! `crate::model`, are the unverified driver's work.

use vstd::prelude::*;
use vstd::string::StringExecFns;

verus! {

/// Characters of the collection endpoint prefix.
pub open spec fn collection_prefix() -> Seq<char> {
    "https://api.modrinth.com/v3/collection/"@
}

/// Characters of the project endpoint prefix.
pub open spec fn project_prefix() -> Seq<char> {
    "https://api.modrinth.com/v3/project/"@
}

/// Characters of the version endpoint prefix.
pub open spec fn version_prefix() -> Seq<char> {
    "https://api.modrinth.com/v3/version/"@
}

/// Characters of the destination directory prefix, directory name and
/// separator included.
pub open spec fn destination_prefix() -> Seq<char> {
    "mods/"@
}

/// URL of one collection lookup.
pub fn collection_url(collection_id: &String) -> (url: String)
    ensures
        url@ == collection_prefix() + collection_id@,
{
    let mut s = String::from_str("https://api.modrinth.com/v3/collection/");
    s.append(collection_id.as_str());
    s
}

/// URL of one project lookup.
pub fn project_url(project_id: &String) -> (url: String)
    ensures
        url@ == project_prefix() + project_id@,
{
    let mut s = String::from_str("https://api.modrinth.com/v3/project/");
    s.append(project_id.as_str());
    s
}

/// URL of one version lookup.
pub fn version_url(version_id: &String) -> (url: String)
    ensures
        url@ == version_prefix() + version_id@,
{
    let mut s = String::from_str("https://api.modrinth.com/v3/version/");
    s.append(version_id.as_str());
    s
}

/// Local path a file is written to: the registry-provided filename nested
/// inside the fixed destination directory.
pub fn destination_path(filename: &String) -> (path: String)
    ensures
        path@ == destination_prefix() + filename@,
{
    let mut s = String::from_str("mods/");
    s.append(filename.as_str());
    s
}

} // verus!
