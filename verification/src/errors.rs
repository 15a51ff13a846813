use vstd::prelude::*;

verus! {

/// The concrete error taxonomy of the engine.  Enumeration noise (an
/// unreadable snapshot, a failed stat) is dropped where it arises and never
/// reaches this type; what is here is either a planning failure that means
/// the request cannot be honoured, or a snapshot-writer failure.
#[derive(Debug)]
pub enum HttmError {
    /// No mount in the index is an ancestor of the queried path.
    NoDataset,
    /// The proximate dataset has no alternate replica.
    NoAltReplica,
    /// Neither a live copy nor any snapshot copy of the request exists.
    NoVersionsFound,
    /// An alias entry was not written as `local:remote`.
    AliasParseFailed,
    /// The snapshot utility demands elevated privileges.
    NeedsPrivilege,
    /// A snapshot was requested on a dataset that is not ZFS.
    UnsupportedFilesystem,
    /// A snapshot was requested on a user-defined (aliased) mount, which
    /// has no dataset name to snapshot.
    UnsupportedAlias,
    /// The snapshot utility failed; the raw standard-error text is kept.
    SnapshotToolFailure(String),
}

impl Clone for HttmError {
    fn clone(&self) -> (r: Self)
        ensures
            r == self,
    {
        match self {
            HttmError::NoDataset => HttmError::NoDataset,
            HttmError::NoAltReplica => HttmError::NoAltReplica,
            HttmError::NoVersionsFound => HttmError::NoVersionsFound,
            HttmError::AliasParseFailed => HttmError::AliasParseFailed,
            HttmError::NeedsPrivilege => HttmError::NeedsPrivilege,
            HttmError::UnsupportedFilesystem => HttmError::UnsupportedFilesystem,
            HttmError::UnsupportedAlias => HttmError::UnsupportedAlias,
            HttmError::SnapshotToolFailure(s) => HttmError::SnapshotToolFailure(s.clone()),
        }
    }
}

impl HttmError {
    /// A short, fixed description of the error, for callers that print.
    pub fn message(&self) -> &'static str {
        match self {
            HttmError::NoDataset => "could not identify any qualifying dataset. Maybe consider specifying manually at SNAP_POINT?",
            HttmError::NoAltReplica => "unable to detect an alternate replicated mount point. Perhaps the replicated filesystem is not mounted?",
            HttmError::NoVersionsFound => "could not find either a live copy or a snapshot copy of any specified file. Please try another file.",
            HttmError::AliasParseFailed => "must use specified delimiter (':') between aliases for MAP_ALIASES.",
            HttmError::NeedsPrivilege => "must have root privileges to snapshot a filesystem",
            HttmError::UnsupportedFilesystem => "does not currently support snapshot-ing non-ZFS filesystems.",
            HttmError::UnsupportedAlias => "does not currently support snapshot-ing user defined mount points.",
            HttmError::SnapshotToolFailure(_) => "unable to take snapshots. The 'zfs' command issued an error.",
        }
    }
}

} // verus!
