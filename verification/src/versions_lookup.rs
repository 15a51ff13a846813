use vstd::prelude::*;

use crate::errors::HttmError;
use crate::lookup_versions::DatasetsForSearch;
use crate::mounts::MountIndex;
use crate::path_rep::{FsPath, distinct_paths, path_byte_len, seq_has_path};
use crate::pathdata::{PathData, PathMetadata};
use crate::strings::str_ends_with;

verus! {

/// The modify time of a version record (all version records carry
/// metadata: a version is, by construction, a successful stat).
pub open spec fn version_mtime(v: PathData) -> u64 {
    v.metadata->Some_0.mtime
}

/// The deduplication key of a version: its (mtime, size) pair.  Two
/// snapshots that captured a file with identical mtime and size collapse
/// to one version.
pub open spec fn version_key(v: PathData) -> (u64, u64) {
    (v.metadata->Some_0.mtime, v.metadata->Some_0.size)
}

pub open spec fn obs_key(md: PathMetadata) -> (u64, u64) {
    (md.mtime, md.size)
}

pub open spec fn sorted_by_mtime(s: Seq<PathData>) -> bool {
    forall|i: int, j: int|
        0 <= i < j < s.len() ==> version_mtime(#[trigger] s[i]) <= version_mtime(#[trigger] s[j])
}

pub open spec fn distinct_keys(s: Seq<PathData>) -> bool {
    forall|i: int, j: int|
        0 <= i < j < s.len() ==> version_key(#[trigger] s[i]) != version_key(#[trigger] s[j])
}

/// Some record in `s` has this path view and this metadata.
pub open spec fn seq_has_version(
    s: Seq<PathData>,
    p: Seq<Seq<char>>,
    md: Option<PathMetadata>,
) -> bool {
    exists|j: int| 0 <= j < s.len() && (#[trigger] s[j]).path_buf@ == p && s[j].metadata == md
}

/// Probe `i` succeeded, and no earlier probe saw the same (mtime, size).
pub open spec fn is_first_observation(stats: Seq<Option<PathMetadata>>, i: int) -> bool {
    &&& 0 <= i < stats.len()
    &&& stats[i] is Some
    &&& forall|i2: int|
        0 <= i2 < i && (#[trigger] stats[i2]) is Some ==> obs_key(stats[i2]->Some_0) != obs_key(
            stats[i]->Some_0,
        )
}

/// `v` is exactly the version record of the first probe that observed its
/// (mtime, size): its path is that snapshot mount extended by the relative
/// path, and its metadata is what the probe returned.
pub open spec fn version_from(
    mounts: Seq<Seq<Seq<char>>>,
    rel: Seq<Seq<char>>,
    stats: Seq<Option<PathMetadata>>,
    v: PathData,
) -> bool {
    exists|i: int|
        #[trigger] is_first_observation(stats, i) && v.metadata == stats[i] && v.path_buf@
            == mounts[i] + rel
}

/// Is the (mtime, size) key already represented?
fn key_in(versions: &Vec<PathData>, mtime: u64, size: u64) -> (r: bool)
    requires
        forall|j: int| 0 <= j < versions@.len() ==> (#[trigger] versions@[j]).metadata is Some,
    ensures
        r == exists|j: int|
            0 <= j < versions@.len() && version_key(#[trigger] versions@[j]) == (mtime, size),
{
    let mut j: usize = 0;
    while j < versions.len()
        invariant
            j <= versions@.len(),
            forall|k: int| 0 <= k < versions@.len() ==> (#[trigger] versions@[k]).metadata is Some,
            forall|k: int|
                0 <= k < j ==> version_key(#[trigger] versions@[k]) != (mtime, size),
        decreases versions@.len() - j,
    {
        let md = versions[j].md_infallible();
        if md.mtime == mtime && md.size == size {
            return true;
        }
        j = j + 1;
    }
    false
}

/// The first position whose version has a later mtime, or the length.
fn find_mtime_pos(v: &Vec<PathData>, mtime: u64) -> (idx: usize)
    requires
        sorted_by_mtime(v@),
        forall|j: int| 0 <= j < v@.len() ==> (#[trigger] v@[j]).metadata is Some,
    ensures
        idx <= v@.len(),
        forall|j: int| 0 <= j < idx ==> version_mtime(#[trigger] v@[j]) <= mtime,
        idx < v@.len() ==> version_mtime(v@[idx as int]) > mtime,
{
    let mut idx: usize = 0;
    while idx < v.len()
        invariant
            idx <= v@.len(),
            forall|j: int| 0 <= j < v@.len() ==> (#[trigger] v@[j]).metadata is Some,
            forall|j: int| 0 <= j < idx ==> version_mtime(#[trigger] v@[j]) <= mtime,
        decreases v@.len() - idx,
    {
        if v[idx].md_infallible().mtime > mtime {
            return idx;
        }
        idx = idx + 1;
    }
    idx
}

/// Insert a version into an mtime-sorted vector, keeping it sorted.
fn insert_version_sorted(v: &mut Vec<PathData>, p: PathData)
    requires
        sorted_by_mtime(old(v)@),
        p.metadata is Some,
        forall|j: int| 0 <= j < old(v)@.len() ==> (#[trigger] old(v)@[j]).metadata is Some,
    ensures
        sorted_by_mtime(final(v)@),
        final(v)@.len() == old(v)@.len() + 1,
        forall|j: int| 0 <= j < final(v)@.len() ==> (#[trigger] final(v)@[j]).metadata is Some,
        forall|pv: Seq<Seq<char>>, md: Option<PathMetadata>|
            #[trigger] seq_has_version(final(v)@, pv, md) <==> (seq_has_version(old(v)@, pv, md)
                || (pv == p.path_buf@ && md == p.metadata)),
        forall|j: int|
            0 <= j < final(v)@.len() ==> (#[trigger] final(v)@[j]) == p || old(v)@.contains(
                final(v)@[j],
            ),
        (distinct_keys(old(v)@) && (forall|j: int|
            0 <= j < old(v)@.len() ==> version_key(#[trigger] old(v)@[j]) != version_key(p)))
            ==> distinct_keys(final(v)@),
{
    let md = p.md_infallible();
    let idx = find_mtime_pos(v, md.mtime);
    let ghost pre = v@;
    let ghost pval = p;
    v.insert(idx, p);
    proof {
        assert forall|i: int, j: int| 0 <= i < j < v@.len() implies version_mtime(#[trigger] v@[i])
            <= version_mtime(#[trigger] v@[j]) by {
            if j < idx {
                assert(v@[i] == pre[i] && v@[j] == pre[j]);
            } else if i > idx {
                assert(v@[i] == pre[i - 1] && v@[j] == pre[j - 1]);
            } else if i < idx && j == idx {
                assert(v@[i] == pre[i]);
            } else if i == idx && j > idx {
                assert(v@[j] == pre[j - 1]);
                assert(version_mtime(pre[idx as int]) > md.mtime);
                assert(version_mtime(pre[j - 1]) >= version_mtime(pre[idx as int]));
            } else if i < idx && j > idx {
                assert(v@[i] == pre[i] && v@[j] == pre[j - 1]);
                assert(version_mtime(pre[j - 1]) >= version_mtime(pre[idx as int]));
            }
        }
        assert forall|j: int| 0 <= j < v@.len() implies (#[trigger] v@[j]).metadata is Some by {
            if j < idx {
                assert(v@[j] == pre[j]);
            } else if j > idx {
                assert(v@[j] == pre[j - 1]);
            } else {
                assert(v@[j] == pval);
            }
        }
        assert forall|j: int| 0 <= j < v@.len() implies (#[trigger] v@[j]) == pval || pre.contains(
            v@[j],
        ) by {
            if j < idx {
                assert(pre[j] == v@[j]);
                assert(pre.contains(v@[j]));
            } else if j > idx {
                assert(pre[j - 1] == v@[j]);
                assert(pre.contains(v@[j]));
            }
        }
        assert forall|pv: Seq<Seq<char>>, mdo: Option<PathMetadata>|
            #[trigger] seq_has_version(v@, pv, mdo) <==> (seq_has_version(pre, pv, mdo) || (pv
                == pval.path_buf@ && mdo == pval.metadata)) by {
            if seq_has_version(v@, pv, mdo) {
                let j = choose|j: int|
                    0 <= j < v@.len() && (#[trigger] v@[j]).path_buf@ == pv && v@[j].metadata
                        == mdo;
                if j < idx {
                    assert(pre[j].path_buf@ == pv && pre[j].metadata == mdo);
                    assert(seq_has_version(pre, pv, mdo));
                } else if j > idx {
                    assert(pre[j - 1].path_buf@ == pv && pre[j - 1].metadata == mdo);
                    assert(seq_has_version(pre, pv, mdo));
                }
            }
            if seq_has_version(pre, pv, mdo) {
                let j = choose|j: int|
                    0 <= j < pre.len() && (#[trigger] pre[j]).path_buf@ == pv && pre[j].metadata
                        == mdo;
                if j < idx {
                    assert(v@[j].path_buf@ == pv && v@[j].metadata == mdo);
                    assert(seq_has_version(v@, pv, mdo));
                } else {
                    assert(v@[j + 1].path_buf@ == pv && v@[j + 1].metadata == mdo);
                    assert(seq_has_version(v@, pv, mdo));
                }
            }
            if pv == pval.path_buf@ && mdo == pval.metadata {
                assert(v@[idx as int].path_buf@ == pv && v@[idx as int].metadata == mdo);
                assert(seq_has_version(v@, pv, mdo));
            }
        }
        if distinct_keys(pre) && (forall|j: int|
            0 <= j < pre.len() ==> version_key(#[trigger] pre[j]) != version_key(pval)) {
            assert forall|j1: int, j2: int| 0 <= j1 < j2 < v@.len() implies version_key(
                #[trigger] v@[j1],
            ) != version_key(#[trigger] v@[j2]) by {
                if j1 == idx {
                    assert(v@[j2] == pre[j2 - 1]);
                } else if j2 == idx {
                    assert(v@[j1] == pre[j1]);
                } else {
                    let w1: int = if j1 < idx { j1 } else { j1 - 1 };
                    let w2: int = if j2 < idx { j2 } else { j2 - 1 };
                    assert(v@[j1] == pre[w1] && v@[j2] == pre[w2]);
                    assert(w1 < w2);
                    assert(version_key(pre[w1]) != version_key(pre[w2]));
                }
            }
        }
    }
}

/// Execute the probe results of one search bundle: one version record per
/// distinct (mtime, size) observed, each from the first snapshot that
/// observed it, ordered by mtime ascending.  `stats[i]` is the outcome of
/// the stat of `snap_mounts[i]` extended by the relative path; a failed
/// stat (no such version in that snapshot) is dropped silently.
pub fn get_versions_per_dataset(
    snap_mounts: &Vec<FsPath>,
    relative_path: &FsPath,
    stats: &Vec<Option<PathMetadata>>,
) -> (r: Vec<PathData>)
    requires
        snap_mounts@.len() == stats@.len(),
    ensures
        forall|j: int|
            0 <= j < r@.len() ==> version_from(
                snap_mounts.deep_view(),
                relative_path@,
                stats@,
                #[trigger] r@[j],
            ),
        forall|i: int|
            0 <= i < stats@.len() && (#[trigger] stats@[i]) is Some ==> exists|j: int|
                0 <= j < r@.len() && version_key(#[trigger] r@[j]) == obs_key(stats@[i]->Some_0),
        distinct_keys(r@),
        sorted_by_mtime(r@),
        forall|j: int| 0 <= j < r@.len() ==> (#[trigger] r@[j]).metadata is Some,
{
    // deduplicate: keep, for each (mtime, size), the first probe that saw it
    let mut unique: Vec<PathData> = Vec::new();
    let mut i: usize = 0;
    while i < stats.len()
        invariant
            snap_mounts@.len() == stats@.len(),
            i <= stats@.len(),
            forall|j: int|
                0 <= j < unique@.len() ==> version_from(
                    snap_mounts.deep_view(),
                    relative_path@,
                    stats@,
                    #[trigger] unique@[j],
                ),
            forall|i2: int|
                0 <= i2 < i && (#[trigger] stats@[i2]) is Some ==> exists|j: int|
                    0 <= j < unique@.len() && version_key(#[trigger] unique@[j]) == obs_key(
                        stats@[i2]->Some_0,
                    ),
            distinct_keys(unique@),
            forall|j: int| 0 <= j < unique@.len() ==> (#[trigger] unique@[j]).metadata is Some,
        decreases stats@.len() - i,
    {
        if let Some(md) = &stats[i] {
            if !key_in(&unique, md.mtime, md.size) {
                let path_buf = snap_mounts[i].join(relative_path);
                let ghost pre_unique = unique@;
                proof {
                    assert forall|i2: int|
                        0 <= i2 < i && (#[trigger] stats@[i2]) is Some implies obs_key(
                        stats@[i2]->Some_0,
                    ) != obs_key(stats@[i as int]->Some_0) by {
                        if obs_key(stats@[i2]->Some_0) == obs_key(stats@[i as int]->Some_0) {
                            let j = choose|j: int|
                                0 <= j < pre_unique.len() && version_key(#[trigger] pre_unique[j])
                                    == obs_key(stats@[i2]->Some_0);
                        }
                    }
                    assert(is_first_observation(stats@, i as int));
                    assert(snap_mounts.deep_view()[i as int] == snap_mounts@[i as int]@);
                }
                unique.push(PathData { path_buf, metadata: Some(*md) });
                proof {
                    assert(unique@[pre_unique.len() as int].metadata == stats@[i as int]);
                    assert(version_from(
                        snap_mounts.deep_view(),
                        relative_path@,
                        stats@,
                        unique@[pre_unique.len() as int],
                    ));
                    assert forall|i2: int|
                        0 <= i2 < i + 1 && (#[trigger] stats@[i2]) is Some implies exists|j: int|
                        0 <= j < unique@.len() && version_key(#[trigger] unique@[j]) == obs_key(
                            stats@[i2]->Some_0,
                        ) by {
                        if i2 < i {
                            let j = choose|j: int|
                                0 <= j < pre_unique.len() && version_key(#[trigger] pre_unique[j])
                                    == obs_key(stats@[i2]->Some_0);
                            assert(unique@[j] == pre_unique[j]);
                            assert(version_key(unique@[j]) == obs_key(stats@[i2]->Some_0));
                        } else {
                            assert(version_key(unique@[pre_unique.len() as int]) == obs_key(
                                stats@[i as int]->Some_0,
                            ));
                        }
                    }
                }
            } else {
                proof {
                    assert forall|i2: int|
                        0 <= i2 < i + 1 && (#[trigger] stats@[i2]) is Some implies exists|j: int|
                        0 <= j < unique@.len() && version_key(#[trigger] unique@[j]) == obs_key(
                            stats@[i2]->Some_0,
                        ) by {}
                }
            }
        }
        i = i + 1;
    }

    // order the survivors by modify time
    let mut out: Vec<PathData> = Vec::new();
    let mut k: usize = 0;
    while k < unique.len()
        invariant
            k <= unique@.len(),
            out@.len() == k,
            sorted_by_mtime(out@),
            distinct_keys(out@),
            distinct_keys(unique@),
            forall|j: int| 0 <= j < unique@.len() ==> (#[trigger] unique@[j]).metadata is Some,
            forall|j: int| 0 <= j < out@.len() ==> (#[trigger] out@[j]).metadata is Some,
            forall|j: int|
                0 <= j < out@.len() ==> exists|j2: int|
                    0 <= j2 < k && (#[trigger] out@[j]).path_buf@ == unique@[j2].path_buf@
                        && out@[j].metadata == unique@[j2].metadata,
            forall|j2: int|
                0 <= j2 < k ==> seq_has_version(
                    out@,
                    (#[trigger] unique@[j2]).path_buf@,
                    unique@[j2].metadata,
                ),
            forall|j: int|
                0 <= j < unique@.len() ==> version_from(
                    snap_mounts.deep_view(),
                    relative_path@,
                    stats@,
                    #[trigger] unique@[j],
                ),
        decreases unique@.len() - k,
    {
        let ghost pre_out = out@;
        let record = unique[k].clone();
        let ghost rec = record;
        proof {
            assert forall|j: int| 0 <= j < pre_out.len() implies version_key(#[trigger] pre_out[j])
                != version_key(rec) by {
                let j2 = choose|j2: int|
                    0 <= j2 < k && (pre_out[j]).path_buf@ == unique@[j2].path_buf@
                        && pre_out[j].metadata == unique@[j2].metadata;
                assert(version_key(pre_out[j]) == version_key(unique@[j2]));
                assert(version_key(unique@[j2]) != version_key(unique@[k as int]));
            }
        }
        insert_version_sorted(&mut out, record);
        proof {
            assert(seq_has_version(out@, unique@[k as int].path_buf@, unique@[k as int].metadata));
            assert(distinct_keys(out@));
            assert forall|j: int| 0 <= j < out@.len() implies exists|j2: int|
                0 <= j2 < k + 1 && (#[trigger] out@[j]).path_buf@ == unique@[j2].path_buf@
                    && out@[j].metadata == unique@[j2].metadata by {
                if out@[j] == rec {
                    assert(out@[j].path_buf@ == unique@[k as int].path_buf@ && out@[j].metadata
                        == unique@[k as int].metadata);
                } else {
                    assert(pre_out.contains(out@[j]));
                    let w = choose|w: int| 0 <= w < pre_out.len() && pre_out[w] == out@[j];
                    let j2 = choose|j2: int|
                        0 <= j2 < k && (pre_out[w]).path_buf@ == unique@[j2].path_buf@
                            && pre_out[w].metadata == unique@[j2].metadata;
                    assert(0 <= j2 < k + 1 && out@[j].path_buf@ == unique@[j2].path_buf@
                        && out@[j].metadata == unique@[j2].metadata);
                }
            }
            assert forall|j2: int| 0 <= j2 < k + 1 implies seq_has_version(
                out@,
                (#[trigger] unique@[j2]).path_buf@,
                unique@[j2].metadata,
            ) by {
                if j2 < k {
                    assert(seq_has_version(pre_out, unique@[j2].path_buf@, unique@[j2].metadata));
                }
            }
        }
        k = k + 1;
    }

    proof {
        // each ordered record inherits its origin's properties
        assert forall|j: int| 0 <= j < out@.len() implies version_from(
            snap_mounts.deep_view(),
            relative_path@,
            stats@,
            #[trigger] out@[j],
        ) by {
            let j2 = choose|j2: int|
                0 <= j2 < unique@.len() && (out@[j]).path_buf@ == unique@[j2].path_buf@
                    && out@[j].metadata == unique@[j2].metadata;
            let i0 = choose|i0: int|
                #[trigger] is_first_observation(stats@, i0) && unique@[j2].metadata == stats@[i0]
                    && unique@[j2].path_buf@ == snap_mounts.deep_view()[i0] + relative_path@;
            assert(is_first_observation(stats@, i0) && out@[j].metadata == stats@[i0]
                && out@[j].path_buf@ == snap_mounts.deep_view()[i0] + relative_path@);
        }
        // every observed key is still represented
        assert forall|i2: int|
            0 <= i2 < stats@.len() && (#[trigger] stats@[i2]) is Some implies exists|j: int|
            0 <= j < out@.len() && version_key(#[trigger] out@[j]) == obs_key(
                stats@[i2]->Some_0,
            ) by {
            let j2 = choose|j2: int|
                0 <= j2 < unique@.len() && version_key(#[trigger] unique@[j2]) == obs_key(
                    stats@[i2]->Some_0,
                );
            assert(seq_has_version(out@, unique@[j2].path_buf@, unique@[j2].metadata));
            let j = choose|j: int|
                0 <= j < out@.len() && (#[trigger] out@[j]).path_buf@ == unique@[j2].path_buf@
                    && out@[j].metadata == unique@[j2].metadata;
            assert(version_key(out@[j]) == obs_key(stats@[i2]->Some_0));
        }
    }
    out
}

impl MountIndex {
    /// `m` is an alternate replica of the dataset mounted at `proximate`:
    /// another mount whose dataset name properly extends the proximate's
    /// dataset name on the left (`rpool/home` replicated as
    /// `tank/rpool/home`): a suffix match on the name, never on the path.
    pub open spec fn is_alt_replica(&self, proximate: Seq<Seq<char>>, m: Seq<Seq<char>>) -> bool {
        &&& self.has_mount(proximate)
        &&& self.has_mount(m)
        &&& self.dataset_of(m).0 != self.dataset_of(proximate).0
        &&& self.dataset_of(proximate).0.is_suffix_of(self.dataset_of(m).0)
    }
}

/// The dataset mounted at `m` has at least one alternate replica.
pub open spec fn some_alt_replica(index: MountIndex, m: Seq<Seq<char>>) -> bool {
    exists|m2: Seq<Seq<char>>| #[trigger] index.is_alt_replica(m, m2)
}

/// Paths ordered by their rendered byte length, shortest first.
pub open spec fn sorted_by_byte_len(s: Seq<FsPath>) -> bool {
    forall|i: int, j: int|
        0 <= i < j < s.len() ==> path_byte_len(#[trigger] s[i]@) <= path_byte_len(#[trigger] s[j]@)
}

/// The first position whose path is longer than `key`, or the length.
fn find_insert_pos(v: &Vec<FsPath>, key: u128) -> (idx: usize)
    requires
        sorted_by_byte_len(v@),
    ensures
        idx <= v@.len(),
        forall|j: int| 0 <= j < idx ==> path_byte_len(#[trigger] v@[j]@) <= key,
        idx < v@.len() ==> path_byte_len(v@[idx as int]@) > key,
{
    let mut idx: usize = 0;
    while idx < v.len()
        invariant
            idx <= v@.len(),
            forall|j: int| 0 <= j < idx ==> path_byte_len(#[trigger] v@[j]@) <= key,
        decreases v@.len() - idx,
    {
        if v[idx].byte_len() > key {
            return idx;
        }
        idx = idx + 1;
    }
    idx
}

/// Insert a path into a length-sorted vector, keeping it sorted.
fn insert_path_sorted(v: &mut Vec<FsPath>, p: FsPath)
    requires
        sorted_by_byte_len(old(v)@),
    ensures
        sorted_by_byte_len(final(v)@),
        final(v)@.len() == old(v)@.len() + 1,
        forall|m: Seq<Seq<char>>|
            #[trigger] seq_has_path(final(v)@, m) <==> (seq_has_path(old(v)@, m) || m == p@),
        (distinct_paths(old(v)@) && !seq_has_path(old(v)@, p@)) ==> distinct_paths(final(v)@),
{
    let key = p.byte_len();
    let idx = find_insert_pos(v, key);
    let ghost pre = v@;
    let ghost pval = p@;
    v.insert(idx, p);
    proof {
        assert forall|i: int, j: int| 0 <= i < j < v@.len() implies path_byte_len(
            #[trigger] v@[i]@,
        ) <= path_byte_len(#[trigger] v@[j]@) by {
            if j < idx {
                assert(v@[i] == pre[i] && v@[j] == pre[j]);
            } else if i > idx {
                assert(v@[i] == pre[i - 1] && v@[j] == pre[j - 1]);
            } else if i < idx && j == idx {
                assert(v@[i] == pre[i]);
            } else if i == idx && j > idx {
                assert(v@[j] == pre[j - 1]);
                if idx < pre.len() {
                    assert(path_byte_len(pre[idx as int]@) > key);
                    assert(path_byte_len(pre[j - 1]@) >= path_byte_len(pre[idx as int]@));
                }
            } else if i < idx && j > idx {
                assert(v@[i] == pre[i] && v@[j] == pre[j - 1]);
                if idx < pre.len() {
                    assert(path_byte_len(pre[j - 1]@) >= path_byte_len(pre[idx as int]@));
                } else {
                    assert(false);
                }
            }
        }
        assert forall|m: Seq<Seq<char>>|
            #[trigger] seq_has_path(v@, m) <==> (seq_has_path(pre, m) || m == p@) by {
            if seq_has_path(v@, m) {
                let j = choose|j: int| 0 <= j < v@.len() && (#[trigger] v@[j])@ == m;
                if j < idx {
                    assert(pre[j]@ == m);
                } else if j == idx {
                } else {
                    assert(pre[j - 1]@ == m);
                }
            }
            if seq_has_path(pre, m) {
                let j = choose|j: int| 0 <= j < pre.len() && (#[trigger] pre[j])@ == m;
                if j < idx {
                    assert(v@[j]@ == m);
                    assert(seq_has_path(v@, m));
                } else {
                    assert(v@[j + 1]@ == m);
                    assert(seq_has_path(v@, m));
                }
            }
            if m == p@ {
                assert(v@[idx as int]@ == m);
                assert(seq_has_path(v@, m));
            }
        }
        if distinct_paths(pre) && !seq_has_path(pre, pval) {
            assert forall|j1: int, j2: int| 0 <= j1 < j2 < v@.len() implies (#[trigger] v@[j1])@
                != (#[trigger] v@[j2])@ by {
                if j1 == idx {
                    assert(v@[j2] == pre[j2 - 1]);
                    if v@[j2]@ == pval {
                        assert(seq_has_path(pre, pval));
                    }
                } else if j2 == idx {
                    assert(v@[j1] == pre[j1]);
                    if v@[j1]@ == pval {
                        assert(seq_has_path(pre, pval));
                    }
                } else {
                    let w1: int = if j1 < idx {
                        j1
                    } else {
                        j1 - 1
                    };
                    let w2: int = if j2 < idx {
                        j2
                    } else {
                        j2 - 1
                    };
                    assert(v@[j1] == pre[w1] && v@[j2] == pre[w2]);
                    assert(w1 < w2);
                }
            }
        }
    }
}

/// Find every mount whose dataset name marks it as an alternate replica of
/// the dataset mounted at `proximate_dataset_mount`, ordered shortest mount
/// path first.  `NoAltReplica` when the proximate mount is unknown or no
/// replica exists.
pub fn get_alt_replicated_datasets(
    proximate_dataset_mount: &FsPath,
    index: &MountIndex,
) -> (r: Result<DatasetsForSearch, HttmError>)
    requires
        index.wf(),
    ensures
        match r {
            Ok(d) => {
                &&& index.has_mount(proximate_dataset_mount@)
                &&& d.proximate_dataset_mount@ == proximate_dataset_mount@
                &&& d.datasets_of_interest@.len() > 0
                &&& sorted_by_byte_len(d.datasets_of_interest@)
                &&& distinct_paths(d.datasets_of_interest@)
                &&& forall|j: int|
                    0 <= j < d.datasets_of_interest@.len() ==> index.is_alt_replica(
                        proximate_dataset_mount@,
                        (#[trigger] d.datasets_of_interest@[j])@,
                    )
                &&& forall|m: Seq<Seq<char>>|
                    #[trigger] index.is_alt_replica(proximate_dataset_mount@, m)
                        ==> seq_has_path(d.datasets_of_interest@, m)
            },
            Err(e) => {
                &&& e is NoAltReplica
                &&& forall|m: Seq<Seq<char>>|
                    !(#[trigger] index.is_alt_replica(proximate_dataset_mount@, m))
            },
        },
{
    let proximate_md = match index.get_dataset(proximate_dataset_mount) {
        Some(md) => md,
        None => {
            proof {
                assert forall|m: Seq<Seq<char>>| !(#[trigger] index.is_alt_replica(
                    proximate_dataset_mount@,
                    m,
                )) by {}
            }
            return Err(HttmError::NoAltReplica);
        },
    };

    let mut alt_replicated_mounts: Vec<FsPath> = Vec::new();
    let mut i: usize = 0;
    while i < index.datasets.len()
        invariant
            index.wf(),
            index.has_mount(proximate_dataset_mount@),
            proximate_md.name@ == index.dataset_of(proximate_dataset_mount@).0,
            i <= index.datasets@.len(),
            sorted_by_byte_len(alt_replicated_mounts@),
            distinct_paths(alt_replicated_mounts@),
            forall|j: int|
                0 <= j < alt_replicated_mounts@.len() ==> exists|k: int|
                    0 <= k < i && (#[trigger] alt_replicated_mounts@[j])@
                        == index.datasets@[k].mount@,
            forall|j: int|
                0 <= j < alt_replicated_mounts@.len() ==> index.is_alt_replica(
                    proximate_dataset_mount@,
                    (#[trigger] alt_replicated_mounts@[j])@,
                ),
            forall|k: int|
                0 <= k < i && index.is_alt_replica(
                    proximate_dataset_mount@,
                    (#[trigger] index.datasets@[k]).mount@,
                ) ==> seq_has_path(alt_replicated_mounts@, index.datasets@[k].mount@),
        decreases index.datasets@.len() - i,
    {
        let entry = &index.datasets[i];
        proof {
            index.lemma_entry_dataset(i as int);
        }
        let name_differs = !(entry.md.name == proximate_md.name);
        let name_matches = str_ends_with(entry.md.name.as_str(), proximate_md.name.as_str());
        if name_differs && name_matches {
            let ghost pre = alt_replicated_mounts@;
            proof {
                // row mounts are unique, so this mount is not collected yet
                if seq_has_path(pre, index.datasets@[i as int].mount@) {
                    let j = choose|j: int|
                        0 <= j < pre.len() && (#[trigger] pre[j])@
                            == index.datasets@[i as int].mount@;
                    let k = choose|k: int|
                        0 <= k < i && (#[trigger] pre[j])@ == index.datasets@[k].mount@;
                    assert(index.datasets@[k].mount@ == index.datasets@[i as int].mount@);
                    assert(false);
                }
            }
            insert_path_sorted(&mut alt_replicated_mounts, entry.mount.clone());
            proof {
                assert forall|j: int|
                    0 <= j < alt_replicated_mounts@.len() implies exists|k: int|
                    0 <= k < i + 1 && (#[trigger] alt_replicated_mounts@[j])@
                        == index.datasets@[k].mount@ by {
                    let m = alt_replicated_mounts@[j]@;
                    assert(seq_has_path(alt_replicated_mounts@, m));
                    if seq_has_path(pre, m) {
                        let j2 = choose|j2: int|
                            0 <= j2 < pre.len() && (#[trigger] pre[j2])@ == m;
                        let k = choose|k: int|
                            0 <= k < i && (#[trigger] pre[j2])@ == index.datasets@[k].mount@;
                        assert(alt_replicated_mounts@[j]@ == index.datasets@[k].mount@);
                    } else {
                        assert(alt_replicated_mounts@[j]@ == index.datasets@[i as int].mount@);
                    }
                }
                assert(index.is_alt_replica(proximate_dataset_mount@, index.datasets@[i as int].mount@));
                assert forall|j: int| 0 <= j < alt_replicated_mounts@.len() implies index.is_alt_replica(
                    proximate_dataset_mount@,
                    (#[trigger] alt_replicated_mounts@[j])@,
                ) by {
                    let m = alt_replicated_mounts@[j]@;
                    assert(seq_has_path(alt_replicated_mounts@, m));
                    if seq_has_path(pre, m) {
                        let j2 = choose|j2: int| 0 <= j2 < pre.len() && (#[trigger] pre[j2])@ == m;
                        assert(index.is_alt_replica(proximate_dataset_mount@, pre[j2]@));
                    }
                }
            }
        } else {
            proof {
                assert(!index.is_alt_replica(
                    proximate_dataset_mount@,
                    index.datasets@[i as int].mount@,
                ));
            }
        }
        i = i + 1;
    }

    if alt_replicated_mounts.len() == 0 {
        proof {
            assert forall|m: Seq<Seq<char>>| !(#[trigger] index.is_alt_replica(
                proximate_dataset_mount@,
                m,
            )) by {
                if index.is_alt_replica(proximate_dataset_mount@, m) {
                    let k = choose|k: int|
                        0 <= k < index.datasets@.len() && index.datasets@[k].mount@ == m;
                    index.lemma_entry_dataset(k);
                }
            }
        }
        Err(HttmError::NoAltReplica)
    } else {
        proof {
            assert forall|m: Seq<Seq<char>>|
                #[trigger] index.is_alt_replica(proximate_dataset_mount@, m) implies seq_has_path(
                alt_replicated_mounts@,
                m,
            ) by {
                let k = choose|k: int|
                    0 <= k < index.datasets@.len() && index.datasets@[k].mount@ == m;
                index.lemma_entry_dataset(k);
            }
        }
        Ok(
            DatasetsForSearch {
                proximate_dataset_mount: proximate_dataset_mount.clone(),
                datasets_of_interest: alt_replicated_mounts,
            },
        )
    }
}

/// The sequence of versions a vector of per-dataset lists flattens to.
pub open spec fn flat_versions(s: Seq<Vec<PathData>>) -> Seq<PathData> {
    s.map_values(|v: Vec<PathData>| v@).flatten()
}

/// Merge the per-dataset version lists of one request into one list, in
/// dataset order.  Versions are deduplicated within one dataset, never
/// across datasets: distinct datasets may genuinely hold equal versions.
pub fn get_all_snap_versions(per_dataset: Vec<Vec<PathData>>) -> (r: Vec<PathData>)
    ensures
        r@ == flat_versions(per_dataset@),
{
    let ghost orig = per_dataset@;
    let mut rest = per_dataset;
    let mut out: Vec<PathData> = Vec::new();
    proof {
        assert(out@ + flat_versions(rest@) =~= flat_versions(orig));
    }
    while rest.len() > 0
        invariant
            out@ + flat_versions(rest@) == flat_versions(orig),
        decreases rest@.len(),
    {
        let ghost pre_rest = rest@;
        let mut inner = rest.remove(0);
        proof {
            assert(rest@ =~= pre_rest.drop_first());
            assert(pre_rest.map_values(|v: Vec<PathData>| v@).drop_first() =~= rest@.map_values(
                |v: Vec<PathData>| v@,
            ));
            assert(flat_versions(pre_rest) == inner@ + flat_versions(rest@));
            assert(out@ + (inner@ + flat_versions(rest@)) =~= (out@ + inner@) + flat_versions(
                rest@,
            ));
        }
        while inner.len() > 0
            invariant
                (out@ + inner@) + flat_versions(rest@) == flat_versions(orig),
            decreases inner@.len(),
        {
            let ghost pre_inner = inner@;
            let ghost pre_out = out@;
            let first = inner.remove(0);
            out.push(first);
            proof {
                assert(inner@ =~= pre_inner.drop_first());
                assert(out@ =~= pre_out.push(pre_inner[0]));
                assert((out@ + inner@) =~= (pre_out + pre_inner));
            }
        }
        proof {
            assert(out@ + inner@ =~= out@);
        }
    }
    proof {
        assert(flat_versions(rest@) =~= Seq::<PathData>::empty());
        assert(out@ + flat_versions(rest@) =~= out@);
    }
    out
}

/// The dataset selections one lookup runs: the alternate replicas first,
/// where the request asks for them, and the proximate dataset always.
pub fn select_dataset_types(opt_alt_replicated: bool) -> (r: Vec<crate::config::NativeDatasetType>)
    ensures
        opt_alt_replicated ==> r@ == seq![
            crate::config::NativeDatasetType::AltReplicated,
            crate::config::NativeDatasetType::MostProximate,
        ],
        !opt_alt_replicated ==> r@ == seq![crate::config::NativeDatasetType::MostProximate],
{
    let mut r: Vec<crate::config::NativeDatasetType> = Vec::new();
    if opt_alt_replicated {
        r.push(crate::config::NativeDatasetType::AltReplicated);
        r.push(crate::config::NativeDatasetType::MostProximate);
        proof {
            assert(r@ =~= seq![
                crate::config::NativeDatasetType::AltReplicated,
                crate::config::NativeDatasetType::MostProximate,
            ]);
        }
    } else {
        r.push(crate::config::NativeDatasetType::MostProximate);
        proof {
            assert(r@ =~= seq![crate::config::NativeDatasetType::MostProximate]);
        }
    }
    r
}

/// The two halves of a lookup's answer: the snapshot versions found, and
/// the live records as given (phantom where the live file is absent).
#[derive(Debug)]
pub struct SnapsAndLiveSet {
    pub snaps: Vec<PathData>,
    pub live: Vec<PathData>,
}

/// Nothing at all was found: snapshots were searched and none held a
/// version, and every live record is phantom (an empty live set counts:
/// the caller suppressed it).
pub open spec fn nothing_found(
    opt_no_snap: bool,
    opt_no_live: bool,
    paths: Seq<PathData>,
    all_snap_versions: Seq<PathData>,
) -> bool {
    &&& !opt_no_snap
    &&& all_snap_versions.len() == 0
    &&& (opt_no_live || forall|j: int| 0 <= j < paths.len() ==> (#[trigger] paths[j]).is_phantom())
}

/// Assemble a lookup's answer: the merged snapshot versions (unless the
/// caller suppressed them) and copies of the live records (unless those
/// were suppressed).  When neither side holds anything, the user probably
/// named a file that never existed: `NoVersionsFound`.
pub fn versions_lookup_exec(
    config: &crate::config::Config,
    vec_pathdata: &Vec<PathData>,
    all_snap_versions: Vec<PathData>,
) -> (r: Result<SnapsAndLiveSet, HttmError>)
    ensures
        match r {
            Ok(s) => {
                &&& !nothing_found(
                    config.opt_no_snap,
                    config.opt_no_live,
                    vec_pathdata@,
                    all_snap_versions@,
                )
                &&& config.opt_no_snap ==> s.snaps@.len() == 0
                &&& !config.opt_no_snap ==> s.snaps@ == all_snap_versions@
                &&& config.opt_no_live ==> s.live@.len() == 0
                &&& !config.opt_no_live ==> crate::pathdata::records_match(s.live@, vec_pathdata@)
            },
            Err(e) => {
                &&& e is NoVersionsFound
                &&& nothing_found(
                    config.opt_no_snap,
                    config.opt_no_live,
                    vec_pathdata@,
                    all_snap_versions@,
                )
            },
        },
{
    let snaps: Vec<PathData> = if config.opt_no_snap {
        Vec::new()
    } else {
        all_snap_versions
    };

    let live: Vec<PathData> = if config.opt_no_live {
        Vec::new()
    } else {
        crate::pathdata::copy_records(vec_pathdata)
    };

    if !config.opt_no_snap && snaps.len() == 0 && all_phantom(&live) {
        proof {
            if !config.opt_no_live {
                assert forall|j: int| 0 <= j < vec_pathdata@.len() implies (#[trigger] vec_pathdata@[j]).is_phantom() by {
                    assert(live@[j].metadata == vec_pathdata@[j].metadata);
                    assert(live@[j].is_phantom());
                }
            }
        }
        return Err(HttmError::NoVersionsFound);
    }

    proof {
        if !config.opt_no_snap && snaps@.len() == 0 {
            // the live set saved the answer: some live record is real
            let j = choose|j: int| 0 <= j < live@.len() && !(#[trigger] live@[j]).is_phantom();
            if !config.opt_no_live {
                assert(vec_pathdata@[j].metadata == live@[j].metadata);
                assert(!vec_pathdata@[j].is_phantom());
            }
        }
    }
    Ok(SnapsAndLiveSet { snaps, live })
}

/// Does every record lack metadata?
fn all_phantom(v: &Vec<PathData>) -> (r: bool)
    ensures
        r == forall|j: int| 0 <= j < v@.len() ==> (#[trigger] v@[j]).is_phantom(),
{
    let mut i: usize = 0;
    while i < v.len()
        invariant
            i <= v@.len(),
            forall|j: int| 0 <= j < i ==> (#[trigger] v@[j]).is_phantom(),
        decreases v@.len() - i,
    {
        if !v[i].phantom() {
            return false;
        }
        i = i + 1;
    }
    true
}

} // verus!
