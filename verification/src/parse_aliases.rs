use vstd::prelude::*;

use crate::FilesystemType;
use crate::errors::HttmError;
use crate::path_rep::FsPath;
use crate::strings::{find_first_index_of, first_index_of, parse_path, split_slash};

verus! {

/// Where an alias points: the directory actually holding the data, and how
/// that directory lays out snapshots.
#[derive(Debug)]
pub struct RemotePathAndFsType {
    pub remote_dir: FsPath,
    pub fs_type: FilesystemType,
}

/// One resolved alias: queries under `local_dir` are answered from
/// `remote_dir`.
#[derive(Debug)]
pub struct AliasEntry {
    pub local_dir: FsPath,
    pub remote: RemotePathAndFsType,
}

/// An alias pair as parsed, before the remote has been probed.
#[derive(Debug)]
pub struct AliasCandidate {
    pub local_dir: FsPath,
    pub remote_dir: FsPath,
}

/// The parse of one `LOCAL:REMOTE` entry: the path written before the
/// first `:`, and the path written after it.
pub open spec fn alias_candidate_spec(s: Seq<char>, c: AliasCandidate) -> bool {
    &&& first_index_of(s, ':') < s.len()
    &&& c.local_dir@ == split_slash(s.subrange(0, first_index_of(s, ':')))
    &&& c.remote_dir@ == split_slash(s.skip(first_index_of(s, ':') + 1))
}

/// Parse user-supplied aliases of the form `LOCAL:REMOTE`, and append the
/// single global snap-point override as one last entry: its remote is the
/// given snap directory, its local the given local directory, or the
/// working directory when none was given.  An entry without the `:`
/// delimiter refuses the whole set.
pub fn parse_aliases(
    raw_local_dir: &Option<String>,
    raw_snap_dir: &Option<String>,
    pwd: &FsPath,
    opt_input_aliases: &Option<Vec<String>>,
) -> (r: Result<Vec<AliasCandidate>, HttmError>)
    ensures
        match r {
            Ok(candidates) => {
                &&& match opt_input_aliases {
                    Some(aliases) => {
                        &&& candidates@.len() == aliases@.len() + (
                        if raw_snap_dir is Some {
                            1int
                        } else {
                            0int
                        })
                        &&& forall|i: int|
                            0 <= i < aliases@.len() ==> alias_candidate_spec(
                                (#[trigger] aliases@[i])@,
                                candidates@[i],
                            )
                    },
                    None => candidates@.len() == (
                    if raw_snap_dir is Some {
                        1int
                    } else {
                        0int
                    }),
                }
                &&& raw_snap_dir matches Some(snap) ==> {
                    &&& candidates@.last().remote_dir@ == split_slash(snap@)
                    &&& candidates@.last().local_dir@ == (match raw_local_dir {
                        Some(local) => split_slash(local@),
                        None => pwd@,
                    })
                }
            },
            Err(e) => {
                &&& e is AliasParseFailed
                &&& opt_input_aliases is Some
                &&& exists|i: int|
                    0 <= i < opt_input_aliases->Some_0@.len() && first_index_of(
                        (#[trigger] opt_input_aliases->Some_0@[i])@,
                        ':',
                    ) == (opt_input_aliases->Some_0@[i])@.len()
            },
        },
{
    let mut candidates: Vec<AliasCandidate> = Vec::new();

    if let Some(input_aliases) = opt_input_aliases {
        let mut i: usize = 0;
        while i < input_aliases.len()
            invariant
                *opt_input_aliases == Some(*input_aliases),
                i <= input_aliases@.len(),
                candidates@.len() == i,
                forall|j: int|
                    0 <= j < i ==> alias_candidate_spec(
                        (#[trigger] input_aliases@[j])@,
                        candidates@[j],
                    ),
            decreases input_aliases@.len() - i,
        {
            let alias = &input_aliases[i];
            let len = alias.as_str().unicode_len();
            let cut = find_first_index_of(alias.as_str(), ':');
            if cut == len {
                proof {
                    assert(first_index_of(input_aliases@[i as int]@, ':')
                        == input_aliases@[i as int]@.len());
                    assert(opt_input_aliases is Some);
                    assert(opt_input_aliases->Some_0@ == input_aliases@);
                    assert(exists|i2: int|
                        0 <= i2 < opt_input_aliases->Some_0@.len() && first_index_of(
                            (#[trigger] opt_input_aliases->Some_0@[i2])@,
                            ':',
                        ) == (opt_input_aliases->Some_0@[i2])@.len());
                }
                return Err(HttmError::AliasParseFailed);
            }
            proof {
                crate::strings::lemma_first_index_bounds(alias@, ':');
            }
            let local_str = alias.as_str().substring_char(0, cut);
            let remote_str = alias.as_str().substring_char(cut + 1, len);
            let local_dir = parse_path(local_str);
            let remote_dir = parse_path(remote_str);
            proof {
                assert(remote_str@ =~= alias@.skip(first_index_of(alias@, ':') + 1));
            }
            candidates.push(AliasCandidate { local_dir, remote_dir });
            i = i + 1;
        }
    }

    if let Some(snap) = raw_snap_dir {
        let remote_dir = parse_path(snap.as_str());
        let local_dir = match raw_local_dir {
            Some(local) => parse_path(local.as_str()),
            None => pwd.clone(),
        };
        candidates.push(AliasCandidate { local_dir, remote_dir });
    }

    Ok(candidates)
}

/// The filesystem kind of a probed remote: a `.zfs` hidden directory marks
/// ZFS; failing that, a `.snapshots` directory marks Btrfs; anything else
/// is no snapshot-capable remote at all.
pub fn fs_type_from_hidden_dir(has_zfs_dir: bool, has_snapshots_dir: bool) -> (r: Option<
    FilesystemType,
>)
    ensures
        has_zfs_dir ==> r == Some(FilesystemType::Zfs),
        !has_zfs_dir && has_snapshots_dir ==> r == Some(FilesystemType::Btrfs),
        !has_zfs_dir && !has_snapshots_dir ==> r is None,
{
    if has_zfs_dir {
        Some(FilesystemType::Zfs)
    } else if has_snapshots_dir {
        Some(FilesystemType::Btrfs)
    } else {
        None
    }
}

/// Keep the candidates whose remotes proved to be snapshot-capable, with
/// the kind the probe found; the rest drop (with a warning at the edge).
/// `fs_types[i]` is the probe outcome of `candidates[i]`.
pub fn build_alias_map(
    candidates: Vec<AliasCandidate>,
    fs_types: &Vec<Option<FilesystemType>>,
) -> (r: Vec<AliasEntry>)
    requires
        candidates@.len() == fs_types@.len(),
    ensures
        forall|j: int|
            0 <= j < r@.len() ==> exists|i: int|
                0 <= i < candidates@.len() && (#[trigger] r@[j]).local_dir@ == (
                #[trigger] candidates@[i]).local_dir@ && r@[j].remote.remote_dir@
                    == candidates@[i].remote_dir@ && fs_types@[i] == Some(r@[j].remote.fs_type),
        forall|i: int|
            0 <= i < candidates@.len() && (#[trigger] fs_types@[i]) is Some ==> exists|j: int|
                0 <= j < r@.len() && (#[trigger] r@[j]).local_dir@ == candidates@[i].local_dir@,
{
    let n = fs_types.len();
    let mut r: Vec<AliasEntry> = Vec::new();
    let mut rest = candidates;
    let mut i: usize = 0;
    let ghost orig = rest@;
    while rest.len() > 0
        invariant
            n == fs_types@.len(),
            orig.len() == fs_types@.len(),
            i + rest@.len() == orig.len(),
            rest@ == orig.subrange(i as int, orig.len() as int),
            forall|j: int|
                0 <= j < r@.len() ==> exists|i0: int|
                    0 <= i0 < i && (#[trigger] r@[j]).local_dir@ == (
                    #[trigger] orig[i0]).local_dir@ && r@[j].remote.remote_dir@
                        == orig[i0].remote_dir@ && fs_types@[i0] == Some(r@[j].remote.fs_type),
            forall|i0: int|
                0 <= i0 < i && (#[trigger] fs_types@[i0]) is Some ==> exists|j: int|
                    0 <= j < r@.len() && (#[trigger] r@[j]).local_dir@ == orig[i0].local_dir@,
        decreases rest@.len(),
    {
        let ghost pre_rest = rest@;
        let ghost pre_r = r@;
        let candidate = rest.remove(0);
        proof {
            assert(rest@ =~= orig.subrange(i + 1, orig.len() as int));
            assert(candidate == orig[i as int]);
        }
        if let Some(fs_type) = fs_types[i] {
            r.push(
                AliasEntry {
                    local_dir: candidate.local_dir,
                    remote: RemotePathAndFsType { remote_dir: candidate.remote_dir, fs_type },
                },
            );
            proof {
                assert(r@[pre_r.len() as int].local_dir@ == orig[i as int].local_dir@);
                assert forall|j: int| 0 <= j < r@.len() implies exists|i0: int|
                    0 <= i0 < i + 1 && (#[trigger] r@[j]).local_dir@ == (
                    #[trigger] orig[i0]).local_dir@ && r@[j].remote.remote_dir@
                        == orig[i0].remote_dir@ && fs_types@[i0] == Some(
                    r@[j].remote.fs_type,
                ) by {
                    if j < pre_r.len() {
                        assert(r@[j] == pre_r[j]);
                        let w = choose|w: int|
                            0 <= w < i && (#[trigger] pre_r[j]).local_dir@ == (
                            #[trigger] orig[w]).local_dir@ && pre_r[j].remote.remote_dir@
                                == orig[w].remote_dir@ && fs_types@[w] == Some(
                            pre_r[j].remote.fs_type,
                        );
                    } else {
                        assert(r@[j].local_dir@ == orig[i as int].local_dir@
                            && r@[j].remote.remote_dir@ == orig[i as int].remote_dir@
                            && fs_types@[i as int] == Some(r@[j].remote.fs_type));
                    }
                }
                assert forall|i0: int|
                    0 <= i0 < i + 1 && (#[trigger] fs_types@[i0]) is Some implies exists|j: int|
                    0 <= j < r@.len() && (#[trigger] r@[j]).local_dir@ == orig[i0].local_dir@ by {
                    if i0 < i {
                        let w = choose|w: int|
                            0 <= w < pre_r.len() && (#[trigger] pre_r[w]).local_dir@
                                == orig[i0].local_dir@;
                        assert(r@[w].local_dir@ == orig[i0].local_dir@);
                    }
                }
            }
        }
        i = i + 1;
    }
    r
}

} // verus!
