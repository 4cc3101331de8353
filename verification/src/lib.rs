//! Verified core of a mod-collection fetcher.
//!
//! The library models the fetch-resolve-download pipeline of a package
//! registry client: typed registry records, compatibility resolution
//! (first matching version, first file), and a download scheduler with a
//! hard bound on concurrent transfers and idempotent skip semantics.
//! Network and filesystem work is performed by an unverified driver that
//! feeds plain values to these functions and obeys their contracts.

pub mod model;
pub mod registry;
pub mod resolver;
pub mod scheduler;
pub mod pipeline;
