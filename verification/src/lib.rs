//! A verified lookup engine for file versions held in filesystem
//! snapshots.  Given a live path on a snapshot-capable filesystem (the ZFS
//! hidden `.zfs/snapshot` layout, or the Btrfs snapper layout), the engine
//! resolves the most proximate mounted dataset, finds alternate replicated
//! copies of it, enumerates and deduplicates the versions its snapshots
//! hold, compares snapshot listings against a live directory to recover
//! deleted names, and plans pool-grouped snapshot batches for the host
//! snapshot utility.  All filesystem reads, and the snapshot utility
//! itself, stay with the caller: the engine takes listings and stat
//! results as plain values and is verified on every input.

pub mod config;
pub mod dates;
pub mod deleted_lookup;
pub mod display;
pub mod errors;
pub mod mounts;
pub mod lookup_versions;
pub mod proximate;
pub mod snapshot_ops;
pub mod strings;
pub mod versions_lookup;
pub mod path_rep;
pub mod parse_aliases;
pub mod pathdata;

use vstd::prelude::*;

verus! {

/// How a dataset locates its snapshot directories.
#[derive(Debug, Clone, Copy, PartialEq, Eq, Structural)]
pub enum FilesystemType {
    Zfs,
    Btrfs,
}

} // verus!
