use httm::config::{Config, DatasetCollection, ExecMode, NativeDatasetType, UserDefinedDirs};
use httm::deleted_lookup::{get_deleted_per_dataset, get_unique_deleted};
use httm::errors::HttmError;
use httm::lookup_versions::{
    get_datasets_for_search, get_mounts_for_files, get_search_bundle, lookup_read_dir_target,
    snap_mounts_from_entries, DatasetsForSearch,
};
use httm::mounts::{DatasetEntry, DatasetMetadata, MountIndex, MountListEntry};
use httm::parse_aliases::{build_alias_map, fs_type_from_hidden_dir, parse_aliases, AliasEntry};
use httm::path_rep::FsPath;
use httm::pathdata::{BasicDirEntryInfo, FileKind, PathData, PathMetadata};
use httm::proximate::{get_proximate_dataset, ProximateCache};
use httm::snapshot_ops::{interpret_snapshot_stderr, take_snapshot};
use httm::strings::{parse_path, path_to_string};
use httm::versions_lookup::{
    get_alt_replicated_datasets, get_versions_per_dataset, versions_lookup_exec,
};
use httm::FilesystemType;

fn p(s: &str) -> FsPath {
    parse_path(s)
}

fn entry(mount: &str, name: &str, fs_type: FilesystemType) -> DatasetEntry {
    DatasetEntry {
        mount: p(mount),
        md: DatasetMetadata {
            name: name.to_string(),
            fs_type,
        },
    }
}

fn md(mtime: u64, size: u64) -> PathMetadata {
    PathMetadata {
        mtime,
        size,
        file_kind: FileKind::File,
    }
}

fn phantom(path: &str) -> PathData {
    PathData::new(p(path), None)
}

fn live(path: &str, mtime: u64, size: u64) -> PathData {
    PathData::new(p(path), Some(md(mtime, size)))
}

fn two_pool_index() -> MountIndex {
    MountIndex::new(
        vec![
            entry("/", "rpool/root", FilesystemType::Zfs),
            entry("/home", "rpool/home", FilesystemType::Zfs),
        ],
        None,
    )
    .unwrap()
}

fn replicated_index() -> MountIndex {
    MountIndex::new(
        vec![
            entry("/", "rpool/root", FilesystemType::Zfs),
            entry("/home", "rpool/home", FilesystemType::Zfs),
            entry("/mnt/backup/home", "tank/rpool/home", FilesystemType::Zfs),
        ],
        None,
    )
    .unwrap()
}

fn auto_config(index: MountIndex, paths: Vec<PathData>) -> Config {
    Config {
        paths,
        dataset_collection: DatasetCollection::AutoDetect(index),
        selected_datasets: vec![NativeDatasetType::MostProximate],
        exec_mode: ExecMode::Display,
        opt_no_snap: false,
        opt_no_live: false,
        opt_raw: false,
        opt_zeros: false,
        opt_no_pretty: false,
        pwd: p("/home/alice"),
    }
}

#[test]
fn proximate_of_nested_file_is_longest_mount() {
    let index = two_pool_index();
    let mut cache = ProximateCache::new();
    let m = get_proximate_dataset(&phantom("/home/alice/x.txt"), &index, &mut cache).unwrap();
    assert_eq!(path_to_string(&m), "/home");

    let m2 = get_proximate_dataset(&phantom("/etc/hosts"), &index, &mut cache).unwrap();
    assert_eq!(path_to_string(&m2), "/");
}

#[test]
fn proximate_is_idempotent_warm_or_cold() {
    let index = two_pool_index();

    let mut cold = ProximateCache::new();
    let first = get_proximate_dataset(&phantom("/home/alice/x.txt"), &index, &mut cold).unwrap();

    // warm a second cache with other queries in the same directory first
    let mut warm = ProximateCache::new();
    let _ = get_proximate_dataset(&phantom("/home/alice/y.txt"), &index, &mut warm).unwrap();
    let _ = get_proximate_dataset(&phantom("/home/alice"), &index, &mut warm).unwrap();
    let second = get_proximate_dataset(&phantom("/home/alice/x.txt"), &index, &mut warm).unwrap();

    assert_eq!(path_to_string(&first), path_to_string(&second));
}

#[test]
fn proximate_without_any_mounted_ancestor_is_no_dataset() {
    let index = MountIndex::new(vec![entry("/home", "rpool/home", FilesystemType::Zfs)], None)
        .unwrap();
    let mut cache = ProximateCache::new();
    let r = get_proximate_dataset(&phantom("/etc/hosts"), &index, &mut cache);
    assert!(matches!(r, Err(HttmError::NoDataset)));
}

#[test]
fn alternates_are_suffix_matches_only() {
    let index = replicated_index();

    let alts = get_alt_replicated_datasets(&p("/home"), &index).unwrap();
    assert_eq!(alts.datasets_of_interest.len(), 1);
    assert_eq!(
        path_to_string(&alts.datasets_of_interest[0]),
        "/mnt/backup/home"
    );

    let none = get_alt_replicated_datasets(&p("/"), &index);
    assert!(matches!(none, Err(HttmError::NoAltReplica)));
}

#[test]
fn precomputed_alternates_agree_with_fresh_scan() {
    let index = replicated_index().with_alternates();
    let config = auto_config(index, vec![]);
    let mut cache = ProximateCache::new();
    let d = get_datasets_for_search(
        &config,
        &phantom("/home/alice/x.txt"),
        &NativeDatasetType::AltReplicated,
        &mut cache,
    )
    .unwrap();
    assert_eq!(d.datasets_of_interest.len(), 1);
    assert_eq!(
        path_to_string(&d.datasets_of_interest[0]),
        "/mnt/backup/home"
    );
}

#[test]
fn search_bundle_strips_against_the_proximate_mount() {
    let index = replicated_index();
    let config = auto_config(index, vec![]);
    let datasets = DatasetsForSearch {
        proximate_dataset_mount: p("/home"),
        datasets_of_interest: vec![p("/mnt/backup/home")],
    };
    let bundles = get_search_bundle(&config, &phantom("/home/alice/x.txt"), &datasets).unwrap();
    assert_eq!(bundles.len(), 1);
    // the relative path comes from the proximate mount, not the replica
    assert_eq!(path_to_string(&bundles[0].relative_path), "/alice/x.txt");
    assert_eq!(
        path_to_string(&bundles[0].snapshot_dir),
        "/mnt/backup/home/.zfs/snapshot"
    );
    assert!(matches!(bundles[0].fs_type, FilesystemType::Zfs));
}

#[test]
fn versions_are_sorted_by_mtime() {
    let snap_mounts = vec![p("/home/.zfs/snapshot/snap-b"), p("/home/.zfs/snapshot/snap-a")];
    let rel = p("/alice/x.txt");
    let stats = vec![Some(md(200, 10)), Some(md(100, 10))];
    let versions = get_versions_per_dataset(&snap_mounts, &rel, &stats);
    assert_eq!(versions.len(), 2);
    assert_eq!(versions[0].metadata.unwrap().mtime, 100);
    assert_eq!(versions[1].metadata.unwrap().mtime, 200);
    assert_eq!(
        path_to_string(&versions[0].path_buf),
        "/home/.zfs/snapshot/snap-a/alice/x.txt"
    );
}

#[test]
fn equal_mtime_and_size_collapse_to_one_version() {
    let snap_mounts = vec![p("/home/.zfs/snapshot/snap-a"), p("/home/.zfs/snapshot/snap-b")];
    let rel = p("/alice/x.txt");
    let stats = vec![Some(md(100, 10)), Some(md(100, 10))];
    let versions = get_versions_per_dataset(&snap_mounts, &rel, &stats);
    assert_eq!(versions.len(), 1);
    // the first observation is the representative
    assert_eq!(
        path_to_string(&versions[0].path_buf),
        "/home/.zfs/snapshot/snap-a/alice/x.txt"
    );
}

#[test]
fn failed_stats_drop_silently() {
    let snap_mounts = vec![p("/s/a"), p("/s/b"), p("/s/c")];
    let rel = p("/x");
    let stats = vec![None, Some(md(7, 1)), None];
    let versions = get_versions_per_dataset(&snap_mounts, &rel, &stats);
    assert_eq!(versions.len(), 1);
    assert_eq!(versions[0].metadata.unwrap().mtime, 7);
}

fn dir_entry(name: &str, path: &str) -> BasicDirEntryInfo {
    BasicDirEntryInfo {
        file_name: name.to_string(),
        path: p(path),
        file_type: Some(FileKind::File),
    }
}

#[test]
fn deleted_lookup_keeps_latest_incarnation() {
    // live directory holds x; snapshots hold x and two incarnations of y
    let live_names = vec!["x".to_string()];
    let snap_entries = vec![
        dir_entry("x", "/home/.zfs/snapshot/snap-a/alice/x"),
        dir_entry("y", "/home/.zfs/snapshot/snap-a/alice/y"),
        dir_entry("y", "/home/.zfs/snapshot/snap-b/alice/y"),
    ];
    // the per-dataset pass hands on every snapshot-only observation: the
    // grouping pass must see both incarnations of y to pick the newest
    let deleted = get_deleted_per_dataset(&live_names, &snap_entries);
    assert_eq!(deleted.len(), 2);
    assert_eq!(deleted[0].file_name, "y");
    assert_eq!(deleted[1].file_name, "y");

    // the unique pass keeps the greatest mtime
    let mtimes = vec![Some(50), Some(70)];
    let unique = get_unique_deleted(&deleted, &mtimes);
    assert_eq!(unique.len(), 1);
    assert_eq!(unique[0].file_name, "y");
    assert_eq!(
        path_to_string(&unique[0].path),
        "/home/.zfs/snapshot/snap-b/alice/y"
    );
}

#[test]
fn deleted_representative_ignores_listing_order() {
    // the newest incarnation listed first must still win
    let live_names = vec!["x".to_string()];
    let snap_entries = vec![
        dir_entry("y", "/home/.zfs/snapshot/snap-b/alice/y"),
        dir_entry("x", "/home/.zfs/snapshot/snap-a/alice/x"),
        dir_entry("y", "/home/.zfs/snapshot/snap-a/alice/y"),
    ];
    let deleted = get_deleted_per_dataset(&live_names, &snap_entries);
    assert_eq!(deleted.len(), 2);

    let mtimes = vec![Some(70), Some(50)];
    let unique = get_unique_deleted(&deleted, &mtimes);
    assert_eq!(unique.len(), 1);
    assert_eq!(unique[0].file_name, "y");
    assert_eq!(
        path_to_string(&unique[0].path),
        "/home/.zfs/snapshot/snap-b/alice/y"
    );
}

#[test]
fn deleted_lookup_never_returns_live_names() {
    let live_names = vec!["x".to_string(), "y".to_string()];
    let snap_entries = vec![
        dir_entry("x", "/snap/a/x"),
        dir_entry("y", "/snap/a/y"),
        dir_entry("z", "/snap/a/z"),
    ];
    let deleted = get_deleted_per_dataset(&live_names, &snap_entries);
    assert_eq!(deleted.len(), 1);
    assert_eq!(deleted[0].file_name, "z");
}

#[test]
fn lookup_answer_carries_snaps_and_live_copies() {
    let index = two_pool_index();
    let config = auto_config(index, vec![]);
    let live_records = vec![live("/home/alice/x.txt", 300, 10)];
    let snaps = vec![live("/home/.zfs/snapshot/snap-a/alice/x.txt", 100, 10)];
    let answer = versions_lookup_exec(&config, &live_records, snaps).unwrap();
    assert_eq!(answer.snaps.len(), 1);
    assert_eq!(answer.live.len(), 1);
    assert_eq!(
        path_to_string(&answer.live[0].path_buf),
        "/home/alice/x.txt"
    );
}

#[test]
fn nothing_found_anywhere_is_an_error() {
    let index = two_pool_index();
    let config = auto_config(index, vec![]);
    let live_records = vec![phantom("/home/alice/gone.txt")];
    let r = versions_lookup_exec(&config, &live_records, Vec::new());
    assert!(matches!(r, Err(HttmError::NoVersionsFound)));
}

#[test]
fn mounts_for_files_diagnoses_phantoms_and_resolves_the_rest() {
    let index = two_pool_index();
    let mut config = auto_config(
        index,
        vec![live("/home/alice/x.txt", 1, 1), phantom("/home/alice/gone.txt")],
    );
    config.exec_mode = ExecMode::SnapFileMount;
    let mut cache = ProximateCache::new();
    let answer = get_mounts_for_files(&config, &mut cache);
    assert_eq!(answer.phantom_inputs.len(), 1);
    assert_eq!(
        path_to_string(&answer.phantom_inputs[0].path_buf),
        "/home/alice/gone.txt"
    );
    assert_eq!(answer.mounts.len(), 1);
    assert_eq!(answer.mounts[0].1.len(), 1);
    assert_eq!(path_to_string(&answer.mounts[0].1[0].path_buf), "/home");
}

fn mounts_for(paths_and_mounts: Vec<(&str, Vec<&str>)>) -> httm::lookup_versions::MountsForFiles {
    httm::lookup_versions::MountsForFiles {
        mounts: paths_and_mounts
            .into_iter()
            .map(|(path, ms)| {
                (
                    phantom(path),
                    ms.into_iter().map(|m| PathData::new(p(m), None)).collect(),
                )
            })
            .collect(),
        phantom_inputs: Vec::new(),
    }
}

#[test]
fn snapshots_are_grouped_by_pool() {
    let index = MountIndex::new(
        vec![
            entry("/home", "rpool/home", FilesystemType::Zfs),
            entry("/srv/data", "tank/data", FilesystemType::Zfs),
        ],
        None,
    )
    .unwrap();
    let mounts = mounts_for(vec![
        ("/home/alice/x.txt", vec!["/home"]),
        ("/srv/data/report", vec!["/srv/data"]),
    ]);
    let groups = take_snapshot(&index, &Vec::new(), &mounts, "T").unwrap();
    assert_eq!(groups.len(), 2);
    assert_eq!(groups[0].pool_name, "rpool");
    assert_eq!(
        groups[0].snapshot_names,
        vec!["rpool/home@snap_T_httmSnapFileMount".to_string()]
    );
    assert_eq!(groups[1].pool_name, "tank");
    assert_eq!(
        groups[1].snapshot_names,
        vec!["tank/data@snap_T_httmSnapFileMount".to_string()]
    );
}

#[test]
fn snapshot_names_within_a_pool_sort_and_dedup() {
    let index = MountIndex::new(
        vec![
            entry("/home", "rpool/home", FilesystemType::Zfs),
            entry("/", "rpool/art", FilesystemType::Zfs),
        ],
        None,
    )
    .unwrap();
    let mounts = mounts_for(vec![
        ("/home/x", vec!["/home"]),
        ("/etc/hosts", vec!["/"]),
        ("/home/y", vec!["/home"]),
    ]);
    let groups = take_snapshot(&index, &Vec::new(), &mounts, "T").unwrap();
    assert_eq!(groups.len(), 1);
    assert_eq!(groups[0].pool_name, "rpool");
    assert_eq!(
        groups[0].snapshot_names,
        vec![
            "rpool/art@snap_T_httmSnapFileMount".to_string(),
            "rpool/home@snap_T_httmSnapFileMount".to_string(),
        ]
    );
}

#[test]
fn snapshots_refuse_non_zfs_datasets() {
    let index = MountIndex::new(
        vec![entry("/home", "rpool/home", FilesystemType::Btrfs)],
        None,
    )
    .unwrap();
    let mounts = mounts_for(vec![("/home/x", vec!["/home"])]);
    let r = take_snapshot(&index, &Vec::new(), &mounts, "T");
    assert!(matches!(r, Err(HttmError::UnsupportedFilesystem)));
}

#[test]
fn snapshots_refuse_aliased_mounts() {
    let index = MountIndex::new(
        vec![entry("/home", "rpool/home", FilesystemType::Zfs)],
        None,
    )
    .unwrap();
    let aliases = vec![AliasEntry {
        local_dir: p("/home"),
        remote: httm::parse_aliases::RemotePathAndFsType {
            remote_dir: p("/mnt/media"),
            fs_type: FilesystemType::Zfs,
        },
    }];
    let mounts = mounts_for(vec![("/home/x", vec!["/home"])]);
    let r = take_snapshot(&index, &aliases, &mounts, "T");
    assert!(matches!(r, Err(HttmError::UnsupportedAlias)));
}

#[test]
fn snapshots_refuse_unknown_mounts() {
    let index = MountIndex::new(
        vec![entry("/home", "rpool/home", FilesystemType::Zfs)],
        None,
    )
    .unwrap();
    let mounts = mounts_for(vec![("/srv/x", vec!["/srv"])]);
    let r = take_snapshot(&index, &Vec::new(), &mounts, "T");
    assert!(matches!(r, Err(HttmError::NoDataset)));
}

#[test]
fn snapshot_stderr_classification() {
    assert!(interpret_snapshot_stderr("").is_ok());
    assert!(matches!(
        interpret_snapshot_stderr(
            "cannot create snapshots : permission denied, some more context"
        ),
        Err(HttmError::NeedsPrivilege)
    ));
    match interpret_snapshot_stderr("dataset is busy") {
        Err(HttmError::SnapshotToolFailure(raw)) => assert_eq!(raw, "dataset is busy"),
        other => panic!("unexpected outcome: {:?}", other),
    }
}

#[test]
fn aliases_parse_and_probe() {
    let aliases_in = Some(vec!["/home/alice:/mnt/media/alice".to_string()]);
    let candidates = parse_aliases(&None, &None, &p("/home/alice"), &aliases_in).unwrap();
    assert_eq!(candidates.len(), 1);
    assert_eq!(path_to_string(&candidates[0].local_dir), "/home/alice");
    assert_eq!(path_to_string(&candidates[0].remote_dir), "/mnt/media/alice");

    let bad = parse_aliases(&None, &None, &p("/"), &Some(vec!["no-delimiter".to_string()]));
    assert!(matches!(bad, Err(HttmError::AliasParseFailed)));

    assert_eq!(fs_type_from_hidden_dir(true, false), Some(FilesystemType::Zfs));
    assert_eq!(fs_type_from_hidden_dir(false, true), Some(FilesystemType::Btrfs));
    assert_eq!(fs_type_from_hidden_dir(false, false), None);

    let kinds = vec![Some(FilesystemType::Zfs)];
    let map = build_alias_map(candidates, &kinds);
    assert_eq!(map.len(), 1);
    assert_eq!(path_to_string(&map[0].remote.remote_dir), "/mnt/media/alice");
}

#[test]
fn snap_dir_override_becomes_the_last_alias() {
    let candidates = parse_aliases(
        &Some("/data".to_string()),
        &Some("/mnt/backup".to_string()),
        &p("/home/alice"),
        &None,
    )
    .unwrap();
    assert_eq!(candidates.len(), 1);
    assert_eq!(path_to_string(&candidates[0].local_dir), "/data");
    assert_eq!(path_to_string(&candidates[0].remote_dir), "/mnt/backup");

    // without a local override, the working directory stands in
    let defaulted = parse_aliases(&None, &Some("/mnt/backup".to_string()), &p("/home/alice"), &None)
        .unwrap();
    assert_eq!(path_to_string(&defaulted[0].local_dir), "/home/alice");
}

#[test]
fn duplicate_mount_points_refuse_the_table() {
    let r = MountIndex::new(
        vec![
            entry("/home", "rpool/home", FilesystemType::Zfs),
            entry("/home", "tank/home", FilesystemType::Zfs),
        ],
        None,
    );
    assert!(r.is_none());
}

#[test]
fn snapshot_table_entries_must_name_known_mounts() {
    let r = MountIndex::new(
        vec![entry("/home", "rpool/home", FilesystemType::Zfs)],
        Some(vec![MountListEntry {
            mount: p("/srv"),
            mounts: vec![p("/srv/.zfs/snapshot/one")],
        }]),
    );
    assert!(r.is_none());

    let ok = MountIndex::new(
        vec![entry("/home", "rpool/home", FilesystemType::Zfs)],
        Some(vec![MountListEntry {
            mount: p("/home"),
            mounts: vec![p("/home/.zfs/snapshot/one")],
        }]),
    );
    assert!(ok.is_some());
}

#[test]
fn btrfs_datasets_list_one_level_deeper() {
    // the snapper layout: listing happens under `.snapshots`, and each
    // child's `snapshot` subdirectory is the mirrored tree
    let index = MountIndex::new(vec![entry("/", "root-subvol", FilesystemType::Btrfs)], None)
        .unwrap();
    let config = auto_config(index, vec![]);
    let datasets = DatasetsForSearch {
        proximate_dataset_mount: p("/"),
        datasets_of_interest: vec![p("/")],
    };
    let bundles = get_search_bundle(&config, &phantom("/etc/hosts"), &datasets).unwrap();
    assert_eq!(bundles.len(), 1);
    assert!(matches!(bundles[0].fs_type, FilesystemType::Btrfs));
    assert_eq!(path_to_string(&bundles[0].snapshot_dir), "/");

    let target = lookup_read_dir_target(&bundles[0].snapshot_dir, bundles[0].fs_type);
    assert_eq!(path_to_string(&target), "/.snapshots");

    let names = vec!["1".to_string(), "2".to_string()];
    let mounts = snap_mounts_from_entries(&target, &names, bundles[0].fs_type);
    assert_eq!(path_to_string(&mounts[0]), "/.snapshots/1/snapshot");
    assert_eq!(path_to_string(&mounts[1]), "/.snapshots/2/snapshot");

    // the ZFS convention keeps each child as the mount itself
    let zfs_target = lookup_read_dir_target(&p("/home/.zfs/snapshot"), FilesystemType::Zfs);
    assert_eq!(path_to_string(&zfs_target), "/home/.zfs/snapshot");
    let zfs_mounts =
        snap_mounts_from_entries(&zfs_target, &vec!["snap-a".to_string()], FilesystemType::Zfs);
    assert_eq!(path_to_string(&zfs_mounts[0]), "/home/.zfs/snapshot/snap-a");
}

#[test]
fn known_snapshot_mounts_skip_the_listing() {
    let index = MountIndex::new(
        vec![entry("/home", "rpool/home", FilesystemType::Zfs)],
        Some(vec![MountListEntry {
            mount: p("/home"),
            mounts: vec![p("/home/.zfs/snapshot/snap-a")],
        }]),
    )
    .unwrap();
    let config = auto_config(index, vec![]);
    let datasets = DatasetsForSearch {
        proximate_dataset_mount: p("/home"),
        datasets_of_interest: vec![p("/home")],
    };
    let bundles = get_search_bundle(&config, &phantom("/home/x"), &datasets).unwrap();
    let mounts = bundles[0].snapshot_mounts.as_ref().unwrap();
    assert_eq!(mounts.len(), 1);
    assert_eq!(path_to_string(&mounts[0]), "/home/.zfs/snapshot/snap-a");
}

#[test]
fn user_defined_snap_points_strip_against_the_local_dir() {
    let config = Config {
        paths: Vec::new(),
        dataset_collection: DatasetCollection::UserDefined(UserDefinedDirs {
            snap_dir: p("/mnt/media"),
            local_dir: p("/home/alice"),
            fs_type: FilesystemType::Zfs,
        }),
        selected_datasets: vec![NativeDatasetType::MostProximate],
        exec_mode: ExecMode::Display,
        opt_no_snap: false,
        opt_no_live: false,
        opt_raw: false,
        opt_zeros: false,
        opt_no_pretty: false,
        pwd: p("/home/alice"),
    };
    let mut cache = ProximateCache::new();
    let datasets = get_datasets_for_search(
        &config,
        &phantom("/home/alice/x.txt"),
        &NativeDatasetType::MostProximate,
        &mut cache,
    )
    .unwrap();
    assert_eq!(path_to_string(&datasets.proximate_dataset_mount), "/mnt/media");

    let bundles = get_search_bundle(&config, &phantom("/home/alice/x.txt"), &datasets).unwrap();
    assert_eq!(
        path_to_string(&bundles[0].snapshot_dir),
        "/mnt/media/.zfs/snapshot"
    );
    assert_eq!(path_to_string(&bundles[0].relative_path), "/x.txt");

    // a query outside the local directory cannot be honoured
    let outside = get_search_bundle(&config, &phantom("/etc/hosts"), &datasets);
    assert!(matches!(outside, Err(HttmError::NoDataset)));
}

#[test]
fn alternates_order_shortest_mount_first() {
    let index = MountIndex::new(
        vec![
            entry("/home", "rpool/home", FilesystemType::Zfs),
            entry("/mnt/very/long/backup/home", "tank/rpool/home", FilesystemType::Zfs),
            entry("/mnt/b/home", "pool2/rpool/home", FilesystemType::Zfs),
        ],
        None,
    )
    .unwrap();
    let alts = get_alt_replicated_datasets(&p("/home"), &index).unwrap();
    assert_eq!(alts.datasets_of_interest.len(), 2);
    assert_eq!(path_to_string(&alts.datasets_of_interest[0]), "/mnt/b/home");
    assert_eq!(
        path_to_string(&alts.datasets_of_interest[1]),
        "/mnt/very/long/backup/home"
    );
}
