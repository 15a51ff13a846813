use vstd::prelude::*;

use crate::FilesystemType;
use crate::mounts::MountIndex;
use crate::path_rep::FsPath;
use crate::pathdata::PathData;

verus! {

/// A user-defined snap point: snapshots are browsed under `snap_dir`, and
/// input paths are taken relative to `local_dir`.
#[derive(Debug)]
pub struct UserDefinedDirs {
    pub snap_dir: FsPath,
    pub local_dir: FsPath,
    pub fs_type: FilesystemType,
}

/// Where snapshots are looked for: a single user-defined snap point, or
/// the mount table the host supplied.
#[derive(Debug)]
pub enum DatasetCollection {
    UserDefined(UserDefinedDirs),
    AutoDetect(MountIndex),
}

/// Which dataset selection a lookup asks for: the most proximate dataset
/// alone, or its alternate replicas.
#[derive(Debug, Clone, Copy, PartialEq, Eq, Structural)]
pub enum NativeDatasetType {
    MostProximate,
    AltReplicated,
}

/// How the engine was invoked; snapshot-file-mount mode forces the dataset
/// selection down to the most proximate dataset only.
#[derive(Debug, Clone, Copy, PartialEq, Eq, Structural)]
pub enum ExecMode {
    Display,
    SnapFileMount,
}

/// The frozen per-request configuration the lookup functions consult.
#[derive(Debug)]
pub struct Config {
    pub paths: Vec<PathData>,
    pub dataset_collection: DatasetCollection,
    pub selected_datasets: Vec<NativeDatasetType>,
    pub exec_mode: ExecMode,
    pub opt_no_snap: bool,
    pub opt_no_live: bool,
    pub opt_raw: bool,
    pub opt_zeros: bool,
    pub opt_no_pretty: bool,
    pub pwd: FsPath,
}

impl Config {
    /// Well-formedness: an auto-detected mount index must itself be
    /// well-formed.
    pub open spec fn wf(&self) -> bool {
        match self.dataset_collection {
            DatasetCollection::UserDefined(_) => true,
            DatasetCollection::AutoDetect(index) => index.wf(),
        }
    }
}

} // verus!
