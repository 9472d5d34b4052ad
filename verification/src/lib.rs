//! Refreshes the integrity hashes recorded inside a package build-recipe.
//!
//! A recipe declares source locators under a `SRCS` field family and matching
//! content hashes under a `CHKSUMS` field family.  This crate classifies each
//! source token, schedules bounded-concurrency fetch-and-hash work while
//! preserving positional correspondence, detects order-insensitive changes,
//! and rewrites exactly the quoted checksum values inside the recipe text.
//! Network transfer itself is left to the caller; everything that decides or
//! computes is verified here.

use vstd::prelude::*;

pub mod context;
pub mod detect;
pub mod hashing;
pub mod entry;
pub mod patch;
pub mod resolver;
pub mod scheduler;
pub mod text;

pub use context::Context;
pub use context::ParseErrors;
pub use context::parse_from_str;
pub use detect::UpdateChecksumResult;
pub use detect::apply_results;
pub use detect::collect_checksums;
pub use detect::field_changed;
pub use entry::EntryKind;
pub use entry::FieldPlan;
pub use entry::classify_token;
pub use entry::plan_field;
pub use entry::plan_sources;
pub use hashing::Sha256Hasher;
pub use hashing::checksum_string;
pub use patch::update_spec_inner;
pub use resolver::PypiArtifact;
pub use resolver::pypi_metadata_url;
pub use resolver::select_sdist;
pub use scheduler::FieldScheduler;

verus! {

/// The failure taxonomy of the refresh pipeline.
///
/// `Config` marks a malformed source-entry token (a registry lookup without
/// its mandatory version option).  `Resolution` marks a registry lookup that
/// produced no source distribution.  `Fetch` marks a transport failure and is
/// raised by the caller that performs the download.  `Patch` marks a checksum
/// field that could not be located inside the recipe text.
#[derive(Debug, Clone, Copy, PartialEq, Eq, Structural)]
pub enum RefreshError {
    Config,
    Resolution,
    Fetch,
    Patch,
}


/// The decision kernel of build-tree discovery.
///
/// The caller walks from the working directory up to the filesystem root
/// and records, for each directory on that path in order, whether it holds
/// a `groups` subdirectory.  The tree to operate on is the nearest such
/// directory; `None` means the walk reached the root without finding one.
pub fn get_tree(has_groups: &Vec<bool>) -> (r: Option<usize>)
    ensures
        match r {
            Some(i) => i < has_groups@.len() && has_groups@[i as int] && forall|k: int|
                0 <= k < i ==> !has_groups@[k],
            None => forall|k: int| 0 <= k < has_groups@.len() ==> !has_groups@[k],
        },
{
    let n = has_groups.len();
    let mut i: usize = 0;
    while i < n
        invariant
            n == has_groups@.len(),
            i <= n,
            forall|k: int| 0 <= k < i ==> !has_groups@[k],
        decreases n - i,
    {
        if has_groups[i] {
            return Some(i);
        }
        i += 1;
    }
    None
}

} // verus!
