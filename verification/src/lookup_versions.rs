use vstd::prelude::*;

use crate::FilesystemType;
use crate::config::{Config, DatasetCollection, ExecMode, NativeDatasetType};
use crate::errors::HttmError;
use crate::mounts::MountIndex;
use crate::path_rep::FsPath;
use crate::pathdata::PathData;
use crate::proximate::{get_proximate_dataset, ProximateCache};
use crate::versions_lookup::get_alt_replicated_datasets;

verus! {

/// The datasets one lookup will search: the proximate mount, which always
/// fixes the relative path inside every candidate snapshot tree, and the
/// mounts of interest (the proximate itself, or its alternate replicas).
#[derive(Debug)]
pub struct DatasetsForSearch {
    pub proximate_dataset_mount: FsPath,
    pub datasets_of_interest: Vec<FsPath>,
}

/// The atomic unit of version discovery: where snapshots of one dataset
/// live, the path of the request inside each snapshot, how the dataset lays
/// snapshots out, and the snapshot mounts the mount table already knows.
#[derive(Debug)]
pub struct SearchBundle {
    pub snapshot_dir: FsPath,
    pub relative_path: FsPath,
    pub fs_type: FilesystemType,
    pub snapshot_mounts: Option<Vec<FsPath>>,
}

/// The two path components under which a ZFS dataset exposes snapshots.
pub open spec fn zfs_snapshot_suffix() -> Seq<Seq<char>> {
    seq![".zfs"@, "snapshot"@]
}

/// The snapshot root of dataset mount `d`: ZFS appends
/// `.zfs/snapshot`; Btrfs keeps the mount itself (listing goes one level
/// deeper); a dataset the table does not know falls back to the ZFS
/// convention.
pub open spec fn snapshot_dir_spec(fs_type: FilesystemType, d: Seq<Seq<char>>) -> Seq<Seq<char>> {
    match fs_type {
        FilesystemType::Zfs => d + zfs_snapshot_suffix(),
        FilesystemType::Btrfs => d,
    }
}

/// The filesystem kind the planner assumes for dataset mount `d`.
pub open spec fn planned_fs_type(index: MountIndex, d: Seq<Seq<char>>) -> FilesystemType {
    if index.has_mount(d) {
        index.dataset_of(d).1
    } else {
        FilesystemType::Zfs
    }
}

/// What one search bundle must hold, given the configuration, the queried
/// path, the proximate mount and the dataset of interest `d`.  The relative
/// path is always stripped against the proximate mount (or the alias's
/// local directory), never against `d`: alternate replicas mirror the
/// proximate dataset's internal structure.
pub open spec fn bundle_post(
    config: Config,
    path: Seq<Seq<char>>,
    proximate: Seq<Seq<char>>,
    d: Seq<Seq<char>>,
    bundle: SearchBundle,
) -> bool {
    match config.dataset_collection {
        DatasetCollection::UserDefined(dirs) => {
            &&& bundle.fs_type == dirs.fs_type
            &&& bundle.snapshot_dir@ == snapshot_dir_spec(dirs.fs_type, d)
            &&& bundle.relative_path@ == path.skip(dirs.local_dir@.len() as int)
            &&& bundle.snapshot_mounts is None
        },
        DatasetCollection::AutoDetect(index) => {
            &&& bundle.fs_type == planned_fs_type(index, d)
            &&& bundle.snapshot_dir@ == snapshot_dir_spec(planned_fs_type(index, d), d)
            &&& bundle.relative_path@ == path.skip(proximate.len() as int)
            &&& match bundle.snapshot_mounts {
                Some(v) => index.has_snap_entry(d) && v.deep_view() == index.snap_mounts_of(d),
                None => !index.has_snap_entry(d),
            }
        },
    }
}

/// The prefix the relative path is stripped against: the alias's local
/// directory for a user-defined snap point, else the proximate mount.
pub open spec fn strip_root(config: Config, proximate: Seq<Seq<char>>) -> Seq<Seq<char>> {
    match config.dataset_collection {
        DatasetCollection::UserDefined(dirs) => dirs.local_dir@,
        DatasetCollection::AutoDetect(_) => proximate,
    }
}

/// What `get_datasets_for_search` promises of a successful answer.
pub open spec fn datasets_for_search_post(
    config: Config,
    path: Seq<Seq<char>>,
    requested: NativeDatasetType,
    d: DatasetsForSearch,
) -> bool {
    match config.dataset_collection {
        DatasetCollection::UserDefined(dirs) => {
            &&& d.proximate_dataset_mount@ == dirs.snap_dir@
            &&& d.datasets_of_interest.deep_view() == seq![dirs.snap_dir@]
        },
        DatasetCollection::AutoDetect(index) => {
            &&& index.is_proximate(path, d.proximate_dataset_mount@)
            &&& match requested {
                NativeDatasetType::MostProximate => d.datasets_of_interest.deep_view() == seq![
                    d.proximate_dataset_mount@,
                ],
                NativeDatasetType::AltReplicated => {
                    if index.has_alt_entry(d.proximate_dataset_mount@) {
                        d.datasets_of_interest.deep_view() == index.alt_mounts_of(
                            d.proximate_dataset_mount@,
                        )
                    } else {
                        &&& index.alts is None
                        &&& d.datasets_of_interest@.len() > 0
                        &&& crate::versions_lookup::sorted_by_byte_len(d.datasets_of_interest@)
                        &&& forall|j: int|
                            0 <= j < d.datasets_of_interest@.len() ==> index.is_alt_replica(
                                d.proximate_dataset_mount@,
                                (#[trigger] d.datasets_of_interest@[j])@,
                            )
                        &&& forall|m: Seq<Seq<char>>|
                            #[trigger] index.is_alt_replica(d.proximate_dataset_mount@, m)
                                ==> crate::path_rep::seq_has_path(d.datasets_of_interest@, m)
                    }
                },
            }
        },
    }
}

/// What `get_datasets_for_search` promises of a failure.
pub open spec fn datasets_for_search_err(
    config: Config,
    path: Seq<Seq<char>>,
    requested: NativeDatasetType,
    e: HttmError,
) -> bool {
    match config.dataset_collection {
        DatasetCollection::UserDefined(_) => false,
        DatasetCollection::AutoDetect(index) => {
            ||| (e is NoDataset && index.has_no_dataset(path))
            ||| {
                &&& requested is AltReplicated
                &&& e is NoAltReplica
                &&& !index.has_no_dataset(path)
                &&& forall|m: Seq<Seq<char>>|
                    #[trigger] index.is_proximate(path, m) ==> if index.alts is Some {
                        !index.has_alt_entry(m)
                    } else {
                        forall|m2: Seq<Seq<char>>| !(#[trigger] index.is_alt_replica(m, m2))
                    }
            }
        },
    }
}

/// The datasets one lookup must search: the proximate dataset alone, or
/// its alternate replicas, from the precomputed table where one exists and
/// by a fresh scan where none does.
pub fn get_datasets_for_search(
    config: &Config,
    pathdata: &PathData,
    requested_dataset_type: &NativeDatasetType,
    cache: &mut ProximateCache,
) -> (r: Result<DatasetsForSearch, HttmError>)
    requires
        config.wf(),
        match config.dataset_collection {
            DatasetCollection::UserDefined(_) => true,
            DatasetCollection::AutoDetect(index) => old(cache).inv(index),
        },
    ensures
        match config.dataset_collection {
            DatasetCollection::UserDefined(_) => true,
            DatasetCollection::AutoDetect(index) => final(cache).inv(index),
        },
        match r {
            Ok(d) => datasets_for_search_post(
                *config,
                pathdata.path_buf@,
                *requested_dataset_type,
                d,
            ),
            Err(e) => datasets_for_search_err(
                *config,
                pathdata.path_buf@,
                *requested_dataset_type,
                e,
            ),
        },
{
    match &config.dataset_collection {
        DatasetCollection::UserDefined(defined_dirs) => {
            let snap_dir = defined_dirs.snap_dir.clone();
            let mut datasets_of_interest: Vec<FsPath> = Vec::new();
            datasets_of_interest.push(defined_dirs.snap_dir.clone());
            proof {
                assert(datasets_of_interest.deep_view() =~= seq![defined_dirs.snap_dir@]);
            }
            Ok(DatasetsForSearch { proximate_dataset_mount: snap_dir, datasets_of_interest })
        },
        DatasetCollection::AutoDetect(index) => {
            let proximate_dataset_mount = match get_proximate_dataset(pathdata, index, cache) {
                Ok(m) => m,
                Err(e) => {
                    return Err(e);
                },
            };
            match requested_dataset_type {
                NativeDatasetType::MostProximate => {
                    let mut datasets_of_interest: Vec<FsPath> = Vec::new();
                    datasets_of_interest.push(proximate_dataset_mount.clone());
                    proof {
                        assert(datasets_of_interest.deep_view() =~= seq![
                            proximate_dataset_mount@,
                        ]);
                    }
                    Ok(
                        DatasetsForSearch {
                            proximate_dataset_mount,
                            datasets_of_interest,
                        },
                    )
                },
                NativeDatasetType::AltReplicated => {
                    match index.get_alt_mounts(&proximate_dataset_mount) {
                        Some(alternate_mounts) => Ok(
                            DatasetsForSearch {
                                datasets_of_interest: crate::path_rep::copy_paths(
                                    alternate_mounts,
                                ),
                                proximate_dataset_mount,
                            },
                        ),
                        None => {
                            if index.alts.is_some() {
                                proof {
                                    assert forall|m: Seq<Seq<char>>| #[trigger]
                                        index.is_proximate(
                                        pathdata.path_buf@,
                                        m,
                                    ) implies !index.has_alt_entry(m) by {
                                        crate::proximate::lemma_proximate_unique(
                                            *index,
                                            pathdata.path_buf@,
                                            m,
                                            proximate_dataset_mount@,
                                        );
                                    }
                                }
                                Err(HttmError::NoAltReplica)
                            } else {
                                match get_alt_replicated_datasets(&proximate_dataset_mount, index) {
                                    Ok(d) => Ok(d),
                                    Err(e) => {
                                        proof {
                                            assert(e is NoAltReplica);
                                            assert forall|m: Seq<Seq<char>>| #[trigger]
                                                index.is_proximate(
                                                pathdata.path_buf@,
                                                m,
                                            ) implies forall|m2: Seq<Seq<char>>|
                                                !(#[trigger] index.is_alt_replica(m, m2)) by {
                                                crate::proximate::lemma_proximate_unique(
                                                    *index,
                                                    pathdata.path_buf@,
                                                    m,
                                                    proximate_dataset_mount@,
                                                );
                                            }
                                        }
                                        Err(e)
                                    },
                                }
                            }
                        },
                    }
                },
            }
        },
    }
}

/// Build one search bundle per dataset of interest.  Fails only when the
/// queried path does not lie under the strip root (and there is at least
/// one dataset to build for).
pub fn get_search_bundle(
    config: &Config,
    pathdata: &PathData,
    datasets_for_search: &DatasetsForSearch,
) -> (r: Result<Vec<SearchBundle>, HttmError>)
    requires
        config.wf(),
    ensures
        match r {
            Ok(v) => {
                &&& v@.len() == datasets_for_search.datasets_of_interest@.len()
                &&& forall|i: int|
                    0 <= i < v@.len() ==> bundle_post(
                        *config,
                        pathdata.path_buf@,
                        datasets_for_search.proximate_dataset_mount@,
                        datasets_for_search.datasets_of_interest@[i]@,
                        #[trigger] v@[i],
                    )
                &&& datasets_for_search.datasets_of_interest@.len() > 0 ==> strip_root(
                    *config,
                    datasets_for_search.proximate_dataset_mount@,
                ).is_prefix_of(pathdata.path_buf@)
            },
            Err(e) => {
                &&& e is NoDataset
                &&& datasets_for_search.datasets_of_interest@.len() > 0
                &&& !strip_root(
                    *config,
                    datasets_for_search.proximate_dataset_mount@,
                ).is_prefix_of(pathdata.path_buf@)
            },
        },
{
    let mut bundles: Vec<SearchBundle> = Vec::new();
    let mut i: usize = 0;
    while i < datasets_for_search.datasets_of_interest.len()
        invariant
            config.wf(),
            i <= datasets_for_search.datasets_of_interest@.len(),
            bundles@.len() == i,
            forall|j: int|
                0 <= j < i ==> bundle_post(
                    *config,
                    pathdata.path_buf@,
                    datasets_for_search.proximate_dataset_mount@,
                    datasets_for_search.datasets_of_interest@[j]@,
                    #[trigger] bundles@[j],
                ),
            i > 0 ==> strip_root(
                *config,
                datasets_for_search.proximate_dataset_mount@,
            ).is_prefix_of(pathdata.path_buf@),
        decreases datasets_for_search.datasets_of_interest@.len() - i,
    {
        let dataset_of_interest = &datasets_for_search.datasets_of_interest[i];
        let bundle = match &config.dataset_collection {
            DatasetCollection::UserDefined(dirs) => {
                let relative_path = match pathdata.path_buf.strip_prefix(&dirs.local_dir) {
                    Some(rel) => rel,
                    None => {
                        return Err(HttmError::NoDataset);
                    },
                };
                let snapshot_dir = match dirs.fs_type {
                    FilesystemType::Zfs => zfs_snapshot_dir(dataset_of_interest),
                    FilesystemType::Btrfs => dataset_of_interest.clone(),
                };
                SearchBundle {
                    snapshot_dir,
                    relative_path,
                    fs_type: dirs.fs_type,
                    snapshot_mounts: None,
                }
            },
            DatasetCollection::AutoDetect(index) => {
                let relative_path = match pathdata.path_buf.strip_prefix(
                    &datasets_for_search.proximate_dataset_mount,
                ) {
                    Some(rel) => rel,
                    None => {
                        return Err(HttmError::NoDataset);
                    },
                };
                let fs_type = match index.get_dataset(dataset_of_interest) {
                    Some(md) => md.fs_type,
                    None => FilesystemType::Zfs,
                };
                let snapshot_dir = match fs_type {
                    FilesystemType::Zfs => zfs_snapshot_dir(dataset_of_interest),
                    FilesystemType::Btrfs => dataset_of_interest.clone(),
                };
                let snapshot_mounts = match index.get_snap_mounts(dataset_of_interest) {
                    Some(mounts) => Some(crate::path_rep::copy_paths(mounts)),
                    None => None,
                };
                SearchBundle { snapshot_dir, relative_path, fs_type, snapshot_mounts }
            },
        };
        bundles.push(bundle);
        i = i + 1;
    }
    Ok(bundles)
}

/// The dataset selections one lookup really runs: snapshot-file-mount mode
/// forces the most proximate dataset alone, whatever the global flag says.
pub open spec fn effective_policies(config: Config) -> Seq<NativeDatasetType> {
    if config.exec_mode is SnapFileMount {
        seq![NativeDatasetType::MostProximate]
    } else {
        config.selected_datasets@
    }
}

/// What one dataset selection contributes to a mounts-for-files value: the
/// datasets of interest of a successful selection, as metadata-free
/// records, or nothing where the selection cannot be honoured.
pub open spec fn policy_part(
    config: Config,
    path: Seq<Seq<char>>,
    requested: NativeDatasetType,
    part: Seq<PathData>,
) -> bool {
    ||| exists|d: DatasetsForSearch|
        #[trigger] datasets_for_search_post(config, path, requested, d) && part.len()
            == d.datasets_of_interest.deep_view().len() && (forall|i: int|
            0 <= i < part.len() ==> (#[trigger] part[i]).path_buf@
                == d.datasets_of_interest.deep_view()[i] && part[i].metadata is None)
    ||| (part.len() == 0 && exists|e: HttmError|
        #[trigger] datasets_for_search_err(config, path, requested, e))
}

/// The mounts of one input are exactly the selections' contributions,
/// concatenated in policy order and reversed: most specific mount first.
pub open spec fn mounts_list_post(config: Config, path: Seq<Seq<char>>, ms: Seq<PathData>) -> bool {
    exists|parts: Seq<Seq<PathData>>|
        #![trigger parts.flatten()]
        parts.len() == effective_policies(config).len() && (forall|t: int|
            0 <= t < parts.len() ==> policy_part(
                config,
                path,
                effective_policies(config)[t],
                #[trigger] parts[t],
            )) && ms == parts.flatten().reverse()
}

/// A mount record a lookup may hand the snapshot writer for a queried
/// path: the proximate mount itself, or one of its alternate replicas
/// (precomputed or found by a fresh scan).
pub open spec fn candidate_mount(
    index: MountIndex,
    path: Seq<Seq<char>>,
    m: Seq<Seq<char>>,
) -> bool {
    ||| index.is_proximate(path, m)
    ||| exists|mp: Seq<Seq<char>>|
        #[trigger] index.is_proximate(path, mp) && ((index.has_alt_entry(mp)
            && index.alt_mounts_of(mp).contains(m)) || index.is_alt_replica(mp, m))
}

/// One input path and the candidate dataset mounts found for it, most
/// specific first.  Mount records carry no metadata: nothing downstream
/// reads any.
#[derive(Debug)]
pub struct MountsForFiles {
    pub mounts: Vec<(PathData, Vec<PathData>)>,
    pub phantom_inputs: Vec<PathData>,
}

/// The predicate a phantom-input filter applies.
pub open spec fn is_phantom_pred() -> spec_fn(PathData) -> bool {
    |p: PathData| p.is_phantom()
}

/// A record with this path view and metadata stands somewhere in `s`.
pub open spec fn some_input_matches(s: Seq<PathData>, r: PathData) -> bool {
    exists|i: int|
        0 <= i < s.len() && (#[trigger] s[i]).path_buf@ == r.path_buf@ && s[i].metadata
            == r.metadata
}

/// For each input path, the candidate dataset mount set the snapshot
/// writer (or the mount display) consumes.  Phantom inputs cannot be
/// resolved and are returned separately for diagnosis; the rest appear
/// once each, in input order.  In snapshot-file-mount mode the dataset
/// selection is forced down to the most proximate dataset, whatever the
/// global alternate-replica flag says.
#[verifier::rlimit(100)]
pub fn get_mounts_for_files(config: &Config, cache: &mut ProximateCache) -> (r: MountsForFiles)
    requires
        config.wf(),
        match config.dataset_collection {
            DatasetCollection::UserDefined(_) => true,
            DatasetCollection::AutoDetect(index) => old(cache).inv(index),
        },
    ensures
        match config.dataset_collection {
            DatasetCollection::UserDefined(_) => true,
            DatasetCollection::AutoDetect(index) => final(cache).inv(index),
        },
        crate::pathdata::records_match(
            r.phantom_inputs@,
            config.paths@.filter(is_phantom_pred()),
        ),
        // each entry is a non-phantom input, each input path appears once
        forall|j: int|
            0 <= j < r.mounts@.len() ==> !(#[trigger] r.mounts@[j]).0.is_phantom()
                && some_input_matches(config.paths@, r.mounts@[j].0),
        forall|j1: int, j2: int|
            0 <= j1 < j2 < r.mounts@.len() ==> (#[trigger] r.mounts@[j1]).0.path_buf@ != (
            #[trigger] r.mounts@[j2]).0.path_buf@,
        forall|i: int|
            0 <= i < config.paths@.len() && !(#[trigger] config.paths@[i]).is_phantom()
                ==> exists|j: int|
                0 <= j < r.mounts@.len() && (#[trigger] r.mounts@[j]).0.path_buf@
                    == config.paths@[i].path_buf@,
        // each entry's mounts are exactly the honoured selections'
        // datasets of interest, in policy order, reversed
        forall|j: int|
            0 <= j < r.mounts@.len() ==> mounts_list_post(
                *config,
                (#[trigger] r.mounts@[j]).0.path_buf@,
                r.mounts@[j].1@,
            ),
        // every mount handed out is a genuine candidate, and carries no
        // metadata
        match config.dataset_collection {
            DatasetCollection::UserDefined(dirs) => forall|j: int, k: int|
                0 <= j < r.mounts@.len() && 0 <= k < (#[trigger] r.mounts@[j]).1@.len()
                    ==> (#[trigger] r.mounts@[j].1@[k]).path_buf@ == dirs.snap_dir@,
            DatasetCollection::AutoDetect(index) => forall|j: int, k: int|
                0 <= j < r.mounts@.len() && 0 <= k < (#[trigger] r.mounts@[j]).1@.len()
                    ==> candidate_mount(
                    index,
                    r.mounts@[j].0.path_buf@,
                    (#[trigger] r.mounts@[j].1@[k]).path_buf@,
                ) && r.mounts@[j].1@[k].metadata is None,
        },
        // in snapshot-file-mount mode, exactly the proximate mount
        (config.exec_mode is SnapFileMount && config.dataset_collection is AutoDetect)
            ==> forall|j: int|
            0 <= j < r.mounts@.len() ==> match config.dataset_collection {
                DatasetCollection::AutoDetect(index) => {
                    if index.has_no_dataset((#[trigger] r.mounts@[j]).0.path_buf@) {
                        r.mounts@[j].1@.len() == 0
                    } else {
                        r.mounts@[j].1@.len() == 1 && index.is_proximate(
                            r.mounts@[j].0.path_buf@,
                            r.mounts@[j].1@[0].path_buf@,
                        )
                    }
                },
                DatasetCollection::UserDefined(_) => true,
            },
{
    let mut mounts: Vec<(PathData, Vec<PathData>)> = Vec::new();
    let mut phantom_inputs: Vec<PathData> = Vec::new();
    let mut i: usize = 0;
    proof {
        reveal(Seq::filter);
        assert(config.paths@.subrange(0, 0).filter(is_phantom_pred()) =~= Seq::<
            PathData,
        >::empty());
    }
    while i < config.paths.len()
        invariant
            config.wf(),
            match config.dataset_collection {
                DatasetCollection::UserDefined(_) => true,
                DatasetCollection::AutoDetect(index) => cache.inv(index),
            },
            i <= config.paths@.len(),
            crate::pathdata::records_match(
                phantom_inputs@,
                config.paths@.subrange(0, i as int).filter(is_phantom_pred()),
            ),
            forall|j: int|
                0 <= j < mounts@.len() ==> !(#[trigger] mounts@[j]).0.is_phantom()
                    && some_input_matches(config.paths@, mounts@[j].0),
            forall|j1: int, j2: int|
                0 <= j1 < j2 < mounts@.len() ==> (#[trigger] mounts@[j1]).0.path_buf@ != (
                #[trigger] mounts@[j2]).0.path_buf@,
            forall|i2: int|
                0 <= i2 < i && !(#[trigger] config.paths@[i2]).is_phantom() ==> exists|j: int|
                    0 <= j < mounts@.len() && (#[trigger] mounts@[j]).0.path_buf@
                        == config.paths@[i2].path_buf@,
            forall|j: int|
                0 <= j < mounts@.len() ==> mounts_list_post(
                    *config,
                    (#[trigger] mounts@[j]).0.path_buf@,
                    mounts@[j].1@,
                ),
            match config.dataset_collection {
                DatasetCollection::UserDefined(dirs) => forall|j: int, k: int|
                    0 <= j < mounts@.len() && 0 <= k < (#[trigger] mounts@[j]).1@.len()
                        ==> (#[trigger] mounts@[j].1@[k]).path_buf@ == dirs.snap_dir@,
                DatasetCollection::AutoDetect(index) => forall|j: int, k: int|
                    0 <= j < mounts@.len() && 0 <= k < (#[trigger] mounts@[j]).1@.len()
                        ==> candidate_mount(
                        index,
                        mounts@[j].0.path_buf@,
                        (#[trigger] mounts@[j].1@[k]).path_buf@,
                    ) && mounts@[j].1@[k].metadata is None,
            },
            (config.exec_mode is SnapFileMount && config.dataset_collection is AutoDetect)
                ==> forall|j: int|
                0 <= j < mounts@.len() ==> match config.dataset_collection {
                    DatasetCollection::AutoDetect(index) => {
                        if index.has_no_dataset((#[trigger] mounts@[j]).0.path_buf@) {
                            mounts@[j].1@.len() == 0
                        } else {
                            mounts@[j].1@.len() == 1 && index.is_proximate(
                                mounts@[j].0.path_buf@,
                                mounts@[j].1@[0].path_buf@,
                            )
                        }
                    },
                    DatasetCollection::UserDefined(_) => true,
                },
        decreases config.paths@.len() - i,
    {
        let pathdata = &config.paths[i];
        let ghost pre_phantoms = phantom_inputs@;
        let ghost pre_mounts = mounts@;
        let ghost pred = is_phantom_pred();
        let ghost pre_filtered = config.paths@.subrange(0, i as int).filter(pred);
        proof {
            assert(config.paths@.subrange(0, i + 1).drop_last() =~= config.paths@.subrange(
                0,
                i as int,
            ));
            assert(config.paths@.subrange(0, i + 1).last() == config.paths@[i as int]);
        }
        if pathdata.phantom() {
            phantom_inputs.push(pathdata.clone());
            proof {
                reveal(Seq::filter);
                assert(pred(config.paths@[i as int]) == config.paths@[i as int].is_phantom());
                assert(config.paths@.subrange(0, i + 1).filter(pred) == pre_filtered.push(
                    config.paths@[i as int],
                ));
                assert forall|j: int| 0 <= j < phantom_inputs@.len() implies (
                #[trigger] phantom_inputs@[j]).path_buf@ == config.paths@.subrange(0, i + 1).filter(
                    pred,
                )[j].path_buf@ && phantom_inputs@[j].metadata == config.paths@.subrange(
                    0,
                    i + 1,
                ).filter(pred)[j].metadata by {
                    if j < pre_phantoms.len() {
                        assert(phantom_inputs@[j] == pre_phantoms[j]);
                        assert(pre_filtered[j].path_buf@ == pre_phantoms[j].path_buf@);
                    }
                }
            }
        } else {
            proof {
                reveal(Seq::filter);
                assert(pred(config.paths@[i as int]) == config.paths@[i as int].is_phantom());
                assert(config.paths@.subrange(0, i + 1).filter(pred) == pre_filtered);
            }
            if !input_seen(&mounts, &pathdata.path_buf) {
                let datasets = mounts_for_one_file(config, pathdata, cache);
                let ghost datasets_view = datasets@;
                mounts.push((pathdata.clone(), datasets));
                proof {
                    assert forall|j: int|
                        0 <= j < mounts@.len() implies mounts_list_post(
                        *config,
                        (#[trigger] mounts@[j]).0.path_buf@,
                        mounts@[j].1@,
                    ) by {
                        if j < pre_mounts.len() {
                            assert(mounts@[j] == pre_mounts[j]);
                        } else {
                            assert(mounts@[j].0.path_buf@ == pathdata.path_buf@);
                            assert(mounts@[j].1@ == datasets_view);
                        }
                    }
                    assert forall|i2: int|
                        0 <= i2 < i + 1 && !(#[trigger] config.paths@[i2]).is_phantom() implies
                        exists|j: int|
                        0 <= j < mounts@.len() && (#[trigger] mounts@[j]).0.path_buf@
                            == config.paths@[i2].path_buf@ by {
                        if i2 < i {
                            let j = choose|j: int|
                                0 <= j < pre_mounts.len() && (#[trigger] pre_mounts[j]).0.path_buf@
                                    == config.paths@[i2].path_buf@;
                            assert(mounts@[j] == pre_mounts[j]);
                        } else {
                            assert(mounts@[pre_mounts.len() as int].0.path_buf@
                                == config.paths@[i as int].path_buf@);
                        }
                    }
                }
            } else {
                proof {
                    assert forall|i2: int|
                        0 <= i2 < i + 1 && !(#[trigger] config.paths@[i2]).is_phantom() implies
                        exists|j: int|
                        0 <= j < mounts@.len() && (#[trigger] mounts@[j]).0.path_buf@
                            == config.paths@[i2].path_buf@ by {}
                }
            }
        }
        i = i + 1;
    }
    proof {
        assert(config.paths@.subrange(0, config.paths@.len() as int) =~= config.paths@);
    }
    MountsForFiles { mounts, phantom_inputs }
}

/// Is this input path already represented?
fn input_seen(mounts: &Vec<(PathData, Vec<PathData>)>, path: &FsPath) -> (r: bool)
    ensures
        r == exists|j: int|
            0 <= j < mounts@.len() && (#[trigger] mounts@[j]).0.path_buf@ == path@,
{
    let mut j: usize = 0;
    while j < mounts.len()
        invariant
            j <= mounts@.len(),
            forall|k: int| 0 <= k < j ==> (#[trigger] mounts@[k]).0.path_buf@ != path@,
        decreases mounts@.len() - j,
    {
        if mounts[j].0.path_buf.is_same(path) {
            return true;
        }
        j = j + 1;
    }
    false
}

/// The candidate mounts of one live path, most specific first.  A dataset
/// selection that cannot be honoured (no alternate replica, say) is
/// flattened away: one missing policy does not kill the query.
#[verifier::rlimit(100)]
fn mounts_for_one_file(
    config: &Config,
    pathdata: &PathData,
    cache: &mut ProximateCache,
) -> (r: Vec<PathData>)
    requires
        config.wf(),
        match config.dataset_collection {
            DatasetCollection::UserDefined(_) => true,
            DatasetCollection::AutoDetect(index) => old(cache).inv(index),
        },
    ensures
        match config.dataset_collection {
            DatasetCollection::UserDefined(_) => true,
            DatasetCollection::AutoDetect(index) => final(cache).inv(index),
        },
        match config.dataset_collection {
            DatasetCollection::UserDefined(dirs) => forall|k: int|
                0 <= k < r@.len() ==> (#[trigger] r@[k]).path_buf@ == dirs.snap_dir@,
            DatasetCollection::AutoDetect(index) => forall|k: int|
                0 <= k < r@.len() ==> candidate_mount(
                    index,
                    pathdata.path_buf@,
                    (#[trigger] r@[k]).path_buf@,
                ) && r@[k].metadata is None,
        },
        (config.exec_mode is SnapFileMount && config.dataset_collection is AutoDetect)
            ==> match config.dataset_collection {
            DatasetCollection::AutoDetect(index) => {
                if index.has_no_dataset(pathdata.path_buf@) {
                    r@.len() == 0
                } else {
                    r@.len() == 1 && index.is_proximate(pathdata.path_buf@, r@[0].path_buf@)
                }
            },
            DatasetCollection::UserDefined(_) => true,
        },
        mounts_list_post(*config, pathdata.path_buf@, r@),
{
    // in snapshot-file-mount mode never request alternate replicas
    let selected_datasets: Vec<NativeDatasetType> = if config.exec_mode == ExecMode::SnapFileMount {
        let mut v: Vec<NativeDatasetType> = Vec::new();
        v.push(NativeDatasetType::MostProximate);
        proof {
            assert(v@ =~= seq![NativeDatasetType::MostProximate]);
        }
        v
    } else {
        copy_dataset_types(&config.selected_datasets)
    };
    proof {
        assert(selected_datasets@ == effective_policies(*config));
    }

    let mut out: Vec<PathData> = Vec::new();
    let ghost mut parts: Seq<Seq<PathData>> = Seq::empty();
    proof {
        assert(out@ =~= parts.flatten());
    }
    let mut t: usize = 0;
    while t < selected_datasets.len()
        invariant
            config.wf(),
            match config.dataset_collection {
                DatasetCollection::UserDefined(_) => true,
                DatasetCollection::AutoDetect(index) => cache.inv(index),
            },
            t <= selected_datasets@.len(),
            selected_datasets@ == effective_policies(*config),
            parts.len() == t,
            out@ == parts.flatten(),
            forall|t0: int|
                0 <= t0 < t ==> policy_part(
                    *config,
                    pathdata.path_buf@,
                    selected_datasets@[t0],
                    #[trigger] parts[t0],
                ),
            match config.dataset_collection {
                DatasetCollection::UserDefined(dirs) => forall|k: int|
                    0 <= k < out@.len() ==> (#[trigger] out@[k]).path_buf@ == dirs.snap_dir@,
                DatasetCollection::AutoDetect(index) => forall|k: int|
                    0 <= k < out@.len() ==> candidate_mount(
                        index,
                        pathdata.path_buf@,
                        (#[trigger] out@[k]).path_buf@,
                    ) && out@[k].metadata is None,
            },
            (config.exec_mode is SnapFileMount && config.dataset_collection is AutoDetect)
                ==> selected_datasets@ == seq![NativeDatasetType::MostProximate],
            (config.exec_mode is SnapFileMount && config.dataset_collection is AutoDetect)
                ==> match config.dataset_collection {
                DatasetCollection::AutoDetect(index) => {
                    if t == 0 {
                        out@.len() == 0
                    } else if index.has_no_dataset(pathdata.path_buf@) {
                        out@.len() == 0
                    } else {
                        out@.len() == 1 && index.is_proximate(
                            pathdata.path_buf@,
                            out@[0].path_buf@,
                        )
                    }
                },
                DatasetCollection::UserDefined(_) => true,
            },
        decreases selected_datasets@.len() - t,
    {
        let requested = selected_datasets[t];
        match get_datasets_for_search(config, pathdata, &requested, cache) {
            Ok(d) => {
                let ghost pre_out = out@;
                let mut k: usize = 0;
                while k < d.datasets_of_interest.len()
                    invariant
                        0 <= t < selected_datasets@.len(),
                        k <= d.datasets_of_interest@.len(),
                        out@.len() == pre_out.len() + k,
                        forall|k2: int| 0 <= k2 < pre_out.len() ==> out@[k2] == pre_out[k2],
                        forall|k2: int|
                            pre_out.len() <= k2 < out@.len() ==> (#[trigger] out@[k2]).path_buf@
                                == d.datasets_of_interest@[k2 - pre_out.len()]@
                                && out@[k2].metadata is None,
                        datasets_for_search_post(
                            *config,
                            pathdata.path_buf@,
                            selected_datasets@[t as int],
                            d,
                        ),
                        match config.dataset_collection {
                            DatasetCollection::UserDefined(dirs) => forall|k2: int|
                                0 <= k2 < out@.len() ==> (#[trigger] out@[k2]).path_buf@
                                    == dirs.snap_dir@,
                            DatasetCollection::AutoDetect(index) => forall|k2: int|
                                0 <= k2 < out@.len() ==> candidate_mount(
                                    index,
                                    pathdata.path_buf@,
                                    (#[trigger] out@[k2]).path_buf@,
                                ) && out@[k2].metadata is None,
                        },
                    decreases d.datasets_of_interest@.len() - k,
                {
                    let record = PathData {
                        path_buf: d.datasets_of_interest[k].clone(),
                        metadata: None,
                    };
                    proof {
                        lemma_dataset_of_interest_is_candidate(
                            *config,
                            pathdata.path_buf@,
                            selected_datasets@[t as int],
                            d,
                            k as int,
                        );
                    }
                    out.push(record);
                    k = k + 1;
                }
                proof {
                    if config.exec_mode is SnapFileMount
                        && config.dataset_collection is AutoDetect {
                        if let DatasetCollection::AutoDetect(index) = &config.dataset_collection {
                            assert(pre_out.len() == 0);
                            assert(d.datasets_of_interest.deep_view() =~= seq![
                                d.proximate_dataset_mount@,
                            ]);
                            assert(d.datasets_of_interest.deep_view().len()
                                == d.datasets_of_interest@.len());
                            assert(d.datasets_of_interest@.len() == 1);
                            assert(out@.len() == 1);
                            assert(out@[0].path_buf@ == d.datasets_of_interest@[0]@);
                            assert(d.datasets_of_interest@[0]@ == d.datasets_of_interest.deep_view()[0]);
                            assert(index.is_proximate(pathdata.path_buf@, out@[0].path_buf@));
                        }
                    }
                    let part = out@.subrange(pre_out.len() as int, out@.len() as int);
                    assert(part.len() == d.datasets_of_interest.deep_view().len());
                    assert forall|i2: int| 0 <= i2 < part.len() implies (
                    #[trigger] part[i2]).path_buf@ == d.datasets_of_interest.deep_view()[i2]
                        && part[i2].metadata is None by {
                        assert(part[i2] == out@[pre_out.len() + i2]);
                        assert(d.datasets_of_interest.deep_view()[i2]
                            == d.datasets_of_interest@[i2]@);
                    }
                    assert(policy_part(
                        *config,
                        pathdata.path_buf@,
                        selected_datasets@[t as int],
                        part,
                    ));
                    parts.lemma_flatten_push(part);
                    parts = parts.push(part);
                    assert(parts.flatten() =~= out@);
                }
            },
            Err(e) => {
                proof {
                    let part = Seq::<PathData>::empty();
                    assert(datasets_for_search_err(
                        *config,
                        pathdata.path_buf@,
                        selected_datasets@[t as int],
                        e,
                    ));
                    assert(policy_part(
                        *config,
                        pathdata.path_buf@,
                        selected_datasets@[t as int],
                        part,
                    ));
                    parts.lemma_flatten_push(part);
                    parts = parts.push(part);
                    assert(parts.flatten() =~= out@);
                }
            },
        }
        t = t + 1;
    }

    let reversed = reverse_records(out);
    proof {
        assert(reversed@ == parts.flatten().reverse());
        assert(mounts_list_post(*config, pathdata.path_buf@, reversed@));
    }
    reversed
}

/// Each dataset of interest a successful selection names is a candidate
/// mount of the queried path.
proof fn lemma_dataset_of_interest_is_candidate(
    config: Config,
    path: Seq<Seq<char>>,
    requested: NativeDatasetType,
    d: DatasetsForSearch,
    k: int,
)
    requires
        datasets_for_search_post(config, path, requested, d),
        0 <= k < d.datasets_of_interest@.len(),
    ensures
        match config.dataset_collection {
            DatasetCollection::UserDefined(dirs) => d.datasets_of_interest@[k]@ == dirs.snap_dir@,
            DatasetCollection::AutoDetect(index) => candidate_mount(
                index,
                path,
                d.datasets_of_interest@[k]@,
            ),
        },
{
    match config.dataset_collection {
        DatasetCollection::UserDefined(dirs) => {
            assert(d.datasets_of_interest.deep_view().len() == d.datasets_of_interest@.len());
            assert(k == 0);
            assert(d.datasets_of_interest.deep_view()[k] == d.datasets_of_interest@[k]@);
            assert(seq![dirs.snap_dir@][k] == dirs.snap_dir@);
        },
        DatasetCollection::AutoDetect(index) => {
            let m = d.datasets_of_interest@[k]@;
            assert(d.datasets_of_interest.deep_view()[k] == m);
            match requested {
                NativeDatasetType::MostProximate => {
                    assert(d.datasets_of_interest.deep_view().len()
                        == d.datasets_of_interest@.len());
                    assert(k == 0);
                    assert(seq![d.proximate_dataset_mount@][k] == d.proximate_dataset_mount@);
                    assert(m == d.proximate_dataset_mount@);
                },
                NativeDatasetType::AltReplicated => {
                    if index.has_alt_entry(d.proximate_dataset_mount@) {
                        assert(index.alt_mounts_of(d.proximate_dataset_mount@).contains(m));
                    } else {
                        assert(index.is_alt_replica(d.proximate_dataset_mount@, m));
                    }
                },
            }
        },
    }
}

/// A copy of the dataset-type selections.
fn copy_dataset_types(v: &Vec<NativeDatasetType>) -> (r: Vec<NativeDatasetType>)
    ensures
        r@ == v@,
{
    let mut r: Vec<NativeDatasetType> = Vec::new();
    let mut i: usize = 0;
    while i < v.len()
        invariant
            i <= v@.len(),
            r@.len() == i,
            forall|j: int| 0 <= j < i ==> r@[j] == v@[j],
        decreases v@.len() - i,
    {
        r.push(v[i]);
        i = i + 1;
    }
    proof {
        assert(r@ =~= v@);
    }
    r
}

/// The same records, last first.
fn reverse_records(v: Vec<PathData>) -> (r: Vec<PathData>)
    ensures
        r@ == v@.reverse(),
{
    let mut rest = v;
    let mut r: Vec<PathData> = Vec::new();
    let ghost orig = rest@;
    while rest.len() > 0
        invariant
            rest@ == orig.subrange(0, rest@.len() as int),
            r@.len() + rest@.len() == orig.len(),
            forall|j: int| 0 <= j < r@.len() ==> (#[trigger] r@[j]) == orig[orig.len() - 1 - j],
        decreases rest@.len(),
    {
        let last = rest.remove(rest.len() - 1);
        r.push(last);
        proof {
            assert(rest@ =~= orig.subrange(0, rest@.len() as int));
        }
    }
    proof {
        assert(r@ =~= v@.reverse());
    }
    r
}

/// The ZFS snapshot root of a dataset mount: `<mount>/.zfs/snapshot`.
fn zfs_snapshot_dir(dataset: &FsPath) -> (r: FsPath)
    ensures
        r@ == dataset@ + zfs_snapshot_suffix(),
{
    let r = dataset.join_component(".zfs").join_component("snapshot");
    proof {
        assert(r@ =~= dataset@ + zfs_snapshot_suffix());
    }
    r
}

/// Where the enumerator must list to discover snapshot mounts when the
/// mount table does not already know them: the snapshot root itself for
/// ZFS, the hidden snapper directory for Btrfs.
pub fn lookup_read_dir_target(snapshot_dir: &FsPath, fs_type: FilesystemType) -> (r: FsPath)
    ensures
        fs_type is Zfs ==> r@ == snapshot_dir@,
        fs_type is Btrfs ==> r@ == snapshot_dir@.push(".snapshots"@),
{
    match fs_type {
        FilesystemType::Zfs => snapshot_dir.clone(),
        FilesystemType::Btrfs => snapshot_dir.join_component(".snapshots"),
    }
}

/// Turn the names listed under the read target into snapshot mounts: each
/// child directly for ZFS; each child\'s `snapshot` subdirectory for Btrfs,
/// where the mirrored tree really lives.
pub fn snap_mounts_from_entries(
    target: &FsPath,
    names: &Vec<String>,
    fs_type: FilesystemType,
) -> (r: Vec<FsPath>)
    ensures
        r@.len() == names@.len(),
        forall|i: int|
            0 <= i < r@.len() ==> (#[trigger] r@[i])@ == (if fs_type is Zfs {
                target@.push(names@[i]@)
            } else {
                target@.push(names@[i]@).push("snapshot"@)
            }),
{
    let mut r: Vec<FsPath> = Vec::new();
    let mut i: usize = 0;
    while i < names.len()
        invariant
            i <= names@.len(),
            r@.len() == i,
            forall|j: int|
                0 <= j < i ==> (#[trigger] r@[j])@ == (if fs_type is Zfs {
                    target@.push(names@[j]@)
                } else {
                    target@.push(names@[j]@).push("snapshot"@)
                }),
        decreases names@.len() - i,
    {
        let child = target.join_component(names[i].as_str());
        let mount = match fs_type {
            FilesystemType::Zfs => child,
            FilesystemType::Btrfs => child.join_component("snapshot"),
        };
        r.push(mount);
        i = i + 1;
    }
    r
}

/// Every lookup whose policy list includes the most-proximate selection
/// searches the proximate dataset exactly once: the selection itself
/// contributes exactly the proximate mount, and an alternate-replica
/// selection never repeats it, because a replica\'s dataset name must
/// differ from the proximate\'s.
pub proof fn lemma_exactly_one_proximate_dataset(
    config: Config,
    path: Seq<Seq<char>>,
    m: Seq<Seq<char>>,
    d_mp: DatasetsForSearch,
    d_alt: DatasetsForSearch,
    with_alt: bool,
)
    requires
        config.wf(),
        config.dataset_collection is AutoDetect,
        config.dataset_collection->AutoDetect_0.is_proximate(path, m),
        datasets_for_search_post(config, path, NativeDatasetType::MostProximate, d_mp),
        with_alt ==> datasets_for_search_post(config, path, NativeDatasetType::AltReplicated, d_alt),
    ensures
        d_mp.datasets_of_interest.deep_view() == seq![m],
        with_alt ==> forall|k: int|
            0 <= k < d_alt.datasets_of_interest@.len()
                ==> (#[trigger] d_alt.datasets_of_interest@[k])@ != m,
{
    let index = config.dataset_collection->AutoDetect_0;
    crate::proximate::lemma_proximate_unique(index, path, m, d_mp.proximate_dataset_mount@);
    if with_alt {
        crate::proximate::lemma_proximate_unique(index, path, m, d_alt.proximate_dataset_mount@);
        let prox = d_alt.proximate_dataset_mount@;
        assert forall|k: int|
            0 <= k < d_alt.datasets_of_interest@.len() implies (
        #[trigger] d_alt.datasets_of_interest@[k])@ != m by {
            let v = d_alt.datasets_of_interest@[k]@;
            assert(d_alt.datasets_of_interest.deep_view()[k] == v);
            if index.has_alt_entry(prox) {
                let e = choose|e: int|
                    0 <= e < index.alts->Some_0@.len() && (#[trigger] index.alts->Some_0@[e]).mount@
                        == prox;
                assert(index.alt_mounts_of(prox)[k] == v);
                assert(index.is_alt_replica(index.alts->Some_0@[e].mount@, v));
            } else {
                assert(index.is_alt_replica(prox, v));
            }
            if v == m {
                assert(index.dataset_of(v).0 != index.dataset_of(prox).0);
            }
        }
    }
}

/// Every version record of one search carries, inside its own snapshot
/// mount, exactly the path of the request inside the proximate mount (or
/// inside the alias\'s local directory): what follows the snapshot mount in
/// the record equals what follows the strip root in the request.
pub proof fn lemma_version_relative_path(
    config: Config,
    path: Seq<Seq<char>>,
    proximate: Seq<Seq<char>>,
    d: Seq<Seq<char>>,
    bundle: SearchBundle,
    mounts: Seq<Seq<Seq<char>>>,
    stats: Seq<Option<crate::pathdata::PathMetadata>>,
    v: PathData,
)
    requires
        bundle_post(config, path, proximate, d, bundle),
        crate::versions_lookup::version_from(mounts, bundle.relative_path@, stats, v),
    ensures
        exists|i: int|
            #![trigger mounts[i]]
            crate::versions_lookup::is_first_observation(stats, i) && v.path_buf@ == mounts[i]
                + path.skip(strip_root(config, proximate).len() as int) && v.path_buf@.skip(
                mounts[i].len() as int,
            ) == path.skip(strip_root(config, proximate).len() as int),
{
    let rel = bundle.relative_path@;
    let i = choose|i: int|
        #[trigger] crate::versions_lookup::is_first_observation(stats, i) && v.metadata == stats[i]
            && v.path_buf@ == mounts[i] + rel;
    assert((mounts[i] + rel).skip(mounts[i].len() as int) =~= rel);
    assert(rel == path.skip(strip_root(config, proximate).len() as int));
}

} // verus!
