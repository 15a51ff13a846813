use httm::config::{Config, DatasetCollection, ExecMode, NativeDatasetType, UserDefinedDirs};
use httm::dates::{get_date, snapshot_timestamp};
use httm::display::{display_exec, display_human_size, display_mounts_for_files};
use httm::lookup_versions::MountsForFiles;
use httm::path_rep::FsPath;
use httm::pathdata::{FileKind, PathData, PathMetadata};
use httm::strings::{
    find_first_index_of, parse_path, path_to_string, str_contains, str_ends_with, str_lex_le,
    u64_to_string,
};
use httm::versions_lookup::{select_dataset_types, SnapsAndLiveSet};
use httm::FilesystemType;

fn p(s: &str) -> FsPath {
    parse_path(s)
}

fn raw_config() -> Config {
    Config {
        paths: Vec::new(),
        dataset_collection: DatasetCollection::UserDefined(UserDefinedDirs {
            snap_dir: p("/mnt/backup"),
            local_dir: p("/home"),
            fs_type: FilesystemType::Zfs,
        }),
        selected_datasets: vec![NativeDatasetType::MostProximate],
        exec_mode: ExecMode::Display,
        opt_no_snap: false,
        opt_no_live: false,
        opt_raw: true,
        opt_zeros: false,
        opt_no_pretty: false,
        pwd: p("/home"),
    }
}

#[test]
fn paths_parse_and_render_both_ways() {
    let path = parse_path("/home/alice/x.txt");
    assert_eq!(path.components, vec!["home", "alice", "x.txt"]);
    assert_eq!(path_to_string(&path), "/home/alice/x.txt");

    // empty components collapse, the root renders as one slash
    assert_eq!(path_to_string(&parse_path("//home//alice/")), "/home/alice");
    assert_eq!(path_to_string(&parse_path("/")), "/");
    assert_eq!(path_to_string(&parse_path("")), "/");
}

#[test]
fn path_prefix_operations() {
    let path = p("/home/alice/x.txt");
    assert!(path.starts_with(&p("/home")));
    assert!(path.starts_with(&p("/")));
    assert!(!path.starts_with(&p("/etc")));

    let rel = path.strip_prefix(&p("/home")).unwrap();
    assert_eq!(rel.components, vec!["alice", "x.txt"]);
    assert!(path.strip_prefix(&p("/etc")).is_none());

    let joined = p("/mnt/snap").join(&rel);
    assert_eq!(path_to_string(&joined), "/mnt/snap/alice/x.txt");
}

#[test]
fn string_utilities_behave() {
    assert!(str_lex_le("rpool/art", "rpool/home"));
    assert!(!str_lex_le("tank", "rpool"));
    assert!(str_lex_le("a", "a"));

    assert!(str_ends_with("tank/rpool/home", "rpool/home"));
    assert!(!str_ends_with("rpool/home", "tank/rpool/home"));

    assert!(str_contains("cannot create snapshots : permission denied", "permission denied"));
    assert!(!str_contains("dataset is busy", "permission denied"));

    assert_eq!(find_first_index_of("rpool/home", '/'), 5);
    assert_eq!(find_first_index_of("rpool", '/'), 5);

    assert_eq!(u64_to_string(0), "0");
    assert_eq!(u64_to_string(90740), "90740");
}

#[test]
fn human_sizes_round_to_one_decimal() {
    assert_eq!(display_human_size(&0), "0 bytes");
    assert_eq!(display_human_size(&100), "100 bytes");
    assert_eq!(display_human_size(&1023), "1023 bytes");
    assert_eq!(display_human_size(&1024), "1.0 KiB");
    assert_eq!(display_human_size(&1536), "1.5 KiB");
    assert_eq!(display_human_size(&(1024 * 1024)), "1.0 MiB");
    assert_eq!(display_human_size(&(5 * 1024 * 1024 * 1024)), "5.0 GiB");
}

#[test]
fn dates_render_as_civil_timestamps() {
    assert_eq!(get_date(0), "1970-01-01 00:00:00");
    // one nanosecond shy of a second still belongs to the epoch second
    assert_eq!(get_date(999_999_999), "1970-01-01 00:00:00");
    // 2021-01-01 00:00:00 UTC
    assert_eq!(get_date(1_609_459_200 * 1_000_000_000), "2021-01-01 00:00:00");
    // 2009-02-13 23:31:30 UTC
    assert_eq!(get_date(1_234_567_890 * 1_000_000_000), "2009-02-13 23:31:30");

    // a leap day renders correctly
    assert_eq!(get_date(1_582_934_400 * 1_000_000_000), "2020-02-29 00:00:00");

    assert_eq!(snapshot_timestamp(0, 5), "1970-01-01T00-00-00.5");
    assert_eq!(
        snapshot_timestamp(1_234_567_890, 123),
        "2009-02-13T23-31-30.123"
    );
}

#[test]
fn raw_display_is_one_path_per_line() {
    let config = raw_config();
    let sets = SnapsAndLiveSet {
        snaps: vec![PathData::new(
            p("/mnt/backup/.zfs/snapshot/snap-a/x"),
            Some(PathMetadata {
                mtime: 100,
                size: 10,
                file_kind: FileKind::File,
            }),
        )],
        live: vec![PathData::new(p("/home/x"), None)],
    };
    let buffer = display_exec(&config, &sets);
    assert_eq!(buffer, "/mnt/backup/.zfs/snapshot/snap-a/x\n/home/x\n");

    let mut zeros = raw_config();
    zeros.opt_raw = false;
    zeros.opt_zeros = true;
    let buffer = display_exec(&zeros, &sets);
    assert_eq!(buffer, "/mnt/backup/.zfs/snapshot/snap-a/x\0/home/x\0");
}

#[test]
fn pretty_display_frames_both_sets() {
    let mut config = raw_config();
    config.opt_raw = false;
    let sets = SnapsAndLiveSet {
        snaps: vec![PathData::new(
            p("/mnt/backup/.zfs/snapshot/snap-a/x"),
            Some(PathMetadata {
                mtime: 100 * 1_000_000_000,
                size: 1536,
                file_kind: FileKind::File,
            }),
        )],
        live: vec![PathData::new(
            p("/home/x"),
            Some(PathMetadata {
                mtime: 200 * 1_000_000_000,
                size: 1536,
                file_kind: FileKind::File,
            }),
        )],
    };
    let buffer = display_exec(&config, &sets);
    assert!(buffer.contains("1.5 KiB"));
    assert!(buffer.contains("1970-01-01 00:01:40"));
    assert!(buffer.contains("\"/home/x"));

    config.opt_no_pretty = true;
    let plain = display_exec(&config, &sets);
    assert_eq!(
        plain,
        "1970-01-01 00:01:40\t1.5 KiB\t/mnt/backup/.zfs/snapshot/snap-a/x\n\
         1970-01-01 00:03:20\t1.5 KiB\t/home/x\n"
    );
}

#[test]
fn mounts_display_lists_every_candidate() {
    let mounts = MountsForFiles {
        mounts: vec![
            (
                PathData::new(p("/home/alice/x.txt"), None),
                vec![PathData::new(p("/home"), None)],
            ),
            (
                PathData::new(p("/srv/data/report"), None),
                vec![
                    PathData::new(p("/srv/data"), None),
                    PathData::new(p("/srv"), None),
                ],
            ),
        ],
        phantom_inputs: Vec::new(),
    };

    let config = raw_config();
    let raw = display_mounts_for_files(&config, &mounts);
    assert_eq!(raw, "/home\n/srv/data\n/srv\n");

    let mut plain = raw_config();
    plain.opt_raw = false;
    plain.opt_no_pretty = true;
    let buffer = display_mounts_for_files(&plain, &mounts);
    assert_eq!(
        buffer,
        "/home/alice/x.txt:\t\"/home\"\n/srv/data/report:\t\"/srv/data\"\t\"/srv\"\n"
    );

    let mut pretty = raw_config();
    pretty.opt_raw = false;
    let aligned = display_mounts_for_files(&pretty, &mounts);
    let expected = format!(
        "/home/alice/x.txt : \"/home\"\n/srv/data/report  : \"/srv/data\"\n{} : \"/srv\"\n",
        " ".repeat(17)
    );
    assert_eq!(aligned, expected);
}

#[test]
fn dataset_selection_follows_the_replica_flag() {
    let both = select_dataset_types(true);
    assert_eq!(
        both,
        vec![
            NativeDatasetType::AltReplicated,
            NativeDatasetType::MostProximate
        ]
    );
    let only = select_dataset_types(false);
    assert_eq!(only, vec![NativeDatasetType::MostProximate]);
}
