use vstd::prelude::*;

use crate::FilesystemType;
use crate::errors::HttmError;
use crate::lookup_versions::MountsForFiles;
use crate::mounts::MountIndex;
use crate::parse_aliases::AliasEntry;
use crate::path_rep::FsPath;
use crate::strings::{
    contains_seq, find_first_index_of, first_index_of, lemma_first_index_bounds, lemma_lex_not_le,
    lemma_lex_trans, lex_le, name_listed, str_contains, str_lex_le,
};

verus! {

/// The name of the snapshot taken of `dataset` at timestamp `timestamp`:
/// `<dataset>@snap_<T>_httmSnapFileMount`.
pub open spec fn snapshot_name_spec(dataset: Seq<char>, timestamp: Seq<char>) -> Seq<char> {
    dataset + "@snap_"@ + timestamp + "_httmSnapFileMount"@
}

/// The pool a snapshot name belongs to: the prefix of the dataset name
/// before the first `/`, or the whole name where no `/` occurs.
pub open spec fn pool_of(name: Seq<char>) -> Seq<char> {
    name.subrange(0, first_index_of(name, '/'))
}

/// The snapshot names to create in one pool: one snapshot-utility
/// invocation per value of this type, so that no call mixes pools.
#[derive(Debug)]
pub struct PoolSnapshots {
    pub pool_name: String,
    pub snapshot_names: Vec<String>,
}

/// Some group holds this name.
pub open spec fn grouped_name_listed(groups: Seq<PoolSnapshots>, n: Seq<char>) -> bool {
    exists|g: int| 0 <= g < groups.len() && name_listed((#[trigger] groups[g]).snapshot_names@, n)
}

/// Lexicographically sorted and free of duplicates.
pub open spec fn strictly_sorted_names(names: Seq<String>) -> bool {
    forall|k1: int, k2: int|
        0 <= k1 < k2 < names.len() ==> lex_le((#[trigger] names[k1])@, (#[trigger] names[k2])@)
            && names[k1]@ != names[k2]@
}

/// Assemble one snapshot name.
fn build_snapshot_name(dataset: &String, timestamp: &str) -> (r: String)
    ensures
        r@ == snapshot_name_spec(dataset@, timestamp@),
{
    let mut name = dataset.clone();
    name.append("@snap_");
    name.append(timestamp);
    name.append("_httmSnapFileMount");
    name
}

/// Extract the pool name of a snapshot name.
fn pool_of_name(name: &String) -> (r: String)
    ensures
        r@ == pool_of(name@),
{
    let cut = find_first_index_of(name.as_str(), '/');
    proof {
        lemma_first_index_bounds(name@, '/');
    }
    name.as_str().substring_char(0, cut).to_owned()
}

/// Is `m` a directory an alias speaks of (on either of its sides)?
pub open spec fn alias_listed(aliases: Seq<AliasEntry>, m: Seq<Seq<char>>) -> bool {
    exists|k: int|
        0 <= k < aliases.len() && ((#[trigger] aliases[k]).local_dir@ == m
            || aliases[k].remote.remote_dir@ == m)
}

fn is_alias_mount(aliases: &Vec<AliasEntry>, m: &FsPath) -> (r: bool)
    ensures
        r == alias_listed(aliases@, m@),
{
    let mut k: usize = 0;
    while k < aliases.len()
        invariant
            k <= aliases@.len(),
            forall|j: int|
                0 <= j < k ==> (#[trigger] aliases@[j]).local_dir@ != m@
                    && aliases@[j].remote.remote_dir@ != m@,
        decreases aliases@.len() - k,
    {
        if aliases[k].local_dir.is_same(m) || aliases[k].remote.remote_dir.is_same(m) {
            return true;
        }
        k = k + 1;
    }
    false
}

/// The mount at entry `j`, position `k`, of a mounts-for-files answer.
pub open spec fn mount_at(mounts: MountsForFiles, j: int, k: int) -> Seq<Seq<char>> {
    mounts.mounts@[j].1@[k].path_buf@
}

pub open spec fn mount_pos_ok(mounts: MountsForFiles, j: int, k: int) -> bool {
    0 <= j < mounts.mounts@.len() && 0 <= k < mounts.mounts@[j].1@.len()
}

/// `n` is the snapshot name of some candidate mount of the batch.
pub open spec fn valid_snapshot_name(
    index: MountIndex,
    aliases: Seq<AliasEntry>,
    mounts: MountsForFiles,
    timestamp: Seq<char>,
    n: Seq<char>,
) -> bool {
    exists|j: int, k: int|
        #![trigger mount_at(mounts, j, k)]
        mount_pos_ok(mounts, j, k) && snapshotable(index, aliases, mount_at(mounts, j, k)) && n
            == snapshot_name_spec(index.dataset_of(mount_at(mounts, j, k)).0, timestamp)
}

/// A mount the snapshot writer accepts: no alias (an alias has no dataset
/// name), present in the mount table, and a ZFS dataset.
pub open spec fn snapshotable(
    index: MountIndex,
    aliases: Seq<AliasEntry>,
    m: Seq<Seq<char>>,
) -> bool {
    &&& !alias_listed(aliases, m)
    &&& index.has_mount(m)
    &&& index.dataset_of(m).1 == FilesystemType::Zfs
}

/// One snapshot name per candidate mount, in traversal order.  The whole
/// batch fails on the first mount that cannot be snapshotted: an aliased
/// mount, an unknown mount, or a non-ZFS dataset.
pub fn snapshot_names(
    index: &MountIndex,
    aliases: &Vec<AliasEntry>,
    mounts_for_files: &MountsForFiles,
    timestamp: &str,
) -> (r: Result<Vec<String>, HttmError>)
    requires
        index.wf(),
    ensures
        match r {
            Ok(names) => {
                &&& forall|t: int|
                    0 <= t < names@.len() ==> valid_snapshot_name(
                        *index,
                        aliases@,
                        *mounts_for_files,
                        timestamp@,
                        (#[trigger] names@[t])@,
                    )
                &&& forall|j: int, k: int|
                    mount_pos_ok(*mounts_for_files, j, k) ==> snapshotable(
                        *index,
                        aliases@,
                        #[trigger] mount_at(*mounts_for_files, j, k),
                    ) && name_listed(
                        names@,
                        snapshot_name_spec(
                            index.dataset_of(mount_at(*mounts_for_files, j, k)).0,
                            timestamp@,
                        ),
                    )
            },
            Err(e) => exists|j: int, k: int|
                #![trigger mount_at(*mounts_for_files, j, k)]
                mount_pos_ok(*mounts_for_files, j, k) && {
                    let m = mount_at(*mounts_for_files, j, k);
                    ||| (e is UnsupportedAlias && alias_listed(aliases@, m))
                    ||| (e is NoDataset && !alias_listed(aliases@, m) && !index.has_mount(m))
                    ||| (e is UnsupportedFilesystem && !alias_listed(aliases@, m)
                        && index.has_mount(m) && index.dataset_of(m).1 != FilesystemType::Zfs)
                },
        },
{
    let mut names: Vec<String> = Vec::new();
    let mut j: usize = 0;
    while j < mounts_for_files.mounts.len()
        invariant
            index.wf(),
            j <= mounts_for_files.mounts@.len(),
            forall|t: int|
                0 <= t < names@.len() ==> valid_snapshot_name(
                    *index,
                    aliases@,
                    *mounts_for_files,
                    timestamp@,
                    (#[trigger] names@[t])@,
                ),
            forall|j0: int, k0: int|
                mount_pos_ok(*mounts_for_files, j0, k0) && j0 < j ==> snapshotable(
                    *index,
                    aliases@,
                    #[trigger] mount_at(*mounts_for_files, j0, k0),
                ) && name_listed(
                    names@,
                    snapshot_name_spec(
                        index.dataset_of(mount_at(*mounts_for_files, j0, k0)).0,
                        timestamp@,
                    ),
                ),
        decreases mounts_for_files.mounts@.len() - j,
    {
        let mount_list = &mounts_for_files.mounts[j].1;
        let mut k: usize = 0;
        while k < mount_list.len()
            invariant
                index.wf(),
                j < mounts_for_files.mounts@.len(),
                mount_list == &mounts_for_files.mounts@[j as int].1,
                k <= mount_list@.len(),
                forall|t: int|
                    0 <= t < names@.len() ==> valid_snapshot_name(
                        *index,
                        aliases@,
                        *mounts_for_files,
                        timestamp@,
                        (#[trigger] names@[t])@,
                    ),
                forall|j0: int, k0: int|
                    mount_pos_ok(*mounts_for_files, j0, k0) && (j0 < j || (j0 == j && k0 < k))
                        ==> snapshotable(
                        *index,
                        aliases@,
                        #[trigger] mount_at(*mounts_for_files, j0, k0),
                    ) && name_listed(
                        names@,
                        snapshot_name_spec(
                            index.dataset_of(mount_at(*mounts_for_files, j0, k0)).0,
                            timestamp@,
                        ),
                    ),
            decreases mount_list@.len() - k,
        {
            let mount = &mount_list[k].path_buf;
            proof {
                assert(mount_pos_ok(*mounts_for_files, j as int, k as int));
                assert(mount@ == mount_at(*mounts_for_files, j as int, k as int));
            }
            if is_alias_mount(aliases, mount) {
                return Err(HttmError::UnsupportedAlias);
            }
            let md = match index.get_dataset(mount) {
                Some(md) => md,
                None => {
                    return Err(HttmError::NoDataset);
                },
            };
            match md.fs_type {
                FilesystemType::Zfs => {},
                FilesystemType::Btrfs => {
                    return Err(HttmError::UnsupportedFilesystem);
                },
            }
            let ghost pre_names = names@;
            let name = build_snapshot_name(&md.name, timestamp);
            names.push(name);
            proof {
                assert(names@[pre_names.len() as int]@ == snapshot_name_spec(
                    index.dataset_of(mount@).0,
                    timestamp@,
                ));
                assert(mount@ == mount_at(*mounts_for_files, j as int, k as int));
                assert(snapshotable(*index, aliases@, mount@));
                assert forall|t: int| 0 <= t < names@.len() implies valid_snapshot_name(
                    *index,
                    aliases@,
                    *mounts_for_files,
                    timestamp@,
                    (#[trigger] names@[t])@,
                ) by {
                    if t < pre_names.len() {
                        assert(names@[t] == pre_names[t]);
                    } else {
                        assert(mount_pos_ok(*mounts_for_files, j as int, k as int)
                            && snapshotable(
                            *index,
                            aliases@,
                            mount_at(*mounts_for_files, j as int, k as int),
                        ) && names@[t]@ == snapshot_name_spec(
                            index.dataset_of(mount_at(*mounts_for_files, j as int, k as int)).0,
                            timestamp@,
                        ));
                        assert(valid_snapshot_name(
                            *index,
                            aliases@,
                            *mounts_for_files,
                            timestamp@,
                            names@[t]@,
                        ));
                    }
                }
                assert forall|j0: int, k0: int|
                    mount_pos_ok(*mounts_for_files, j0, k0) && (j0 < j || (j0 == j && k0 < k
                        + 1)) implies snapshotable(
                    *index,
                    aliases@,
                    #[trigger] mount_at(*mounts_for_files, j0, k0),
                ) && name_listed(
                    names@,
                    snapshot_name_spec(
                        index.dataset_of(mount_at(*mounts_for_files, j0, k0)).0,
                        timestamp@,
                    ),
                ) by {
                    if j0 < j || (j0 == j && k0 < k) {
                        let n = snapshot_name_spec(
                            index.dataset_of(mount_at(*mounts_for_files, j0, k0)).0,
                            timestamp@,
                        );
                        let w = choose|w: int|
                            0 <= w < pre_names.len() && (#[trigger] pre_names[w])@ == n;
                        assert(names@[w]@ == n);
                    } else {
                        assert(names@[pre_names.len() as int]@ == snapshot_name_spec(
                            index.dataset_of(mount_at(*mounts_for_files, j0, k0)).0,
                            timestamp@,
                        ));
                    }
                }
            }
            k = k + 1;
        }
        j = j + 1;
    }
    Ok(names)
}

/// The first position whose name does not precede `name`, or the length.
fn find_name_pos(v: &Vec<String>, name: &String) -> (idx: usize)
    requires
        strictly_sorted_names(v@),
    ensures
        idx <= v@.len(),
        forall|j: int| 0 <= j < idx ==> lex_le((#[trigger] v@[j])@, name@),
        idx < v@.len() ==> !lex_le(v@[idx as int]@, name@),
{
    let mut idx: usize = 0;
    while idx < v.len()
        invariant
            idx <= v@.len(),
            forall|j: int| 0 <= j < idx ==> lex_le((#[trigger] v@[j])@, name@),
        decreases v@.len() - idx,
    {
        if !str_lex_le(v[idx].as_str(), name.as_str()) {
            return idx;
        }
        idx = idx + 1;
    }
    idx
}

/// Is this very name already present?
fn name_present(v: &Vec<String>, name: &String) -> (r: bool)
    ensures
        r == name_listed(v@, name@),
{
    let mut k: usize = 0;
    while k < v.len()
        invariant
            k <= v@.len(),
            forall|j: int| 0 <= j < k ==> (#[trigger] v@[j])@ != name@,
        decreases v@.len() - k,
    {
        if v[k] == *name {
            return true;
        }
        k = k + 1;
    }
    false
}

/// Insert a fresh name into a sorted, duplicate-free list of names.
fn insert_name_sorted(v: &mut Vec<String>, name: String)
    requires
        strictly_sorted_names(old(v)@),
        !name_listed(old(v)@, name@),
    ensures
        strictly_sorted_names(final(v)@),
        final(v)@.len() == old(v)@.len() + 1,
        forall|n: Seq<char>|
            #[trigger] name_listed(final(v)@, n) <==> (name_listed(old(v)@, n) || n == name@),
{
    let idx = find_name_pos(v, &name);
    let ghost pre = v@;
    let ghost nval = name@;
    v.insert(idx, name);
    proof {
        assert forall|k1: int, k2: int| 0 <= k1 < k2 < v@.len() implies lex_le(
            (#[trigger] v@[k1])@,
            (#[trigger] v@[k2])@,
        ) && v@[k1]@ != v@[k2]@ by {
            if k2 < idx {
                assert(v@[k1] == pre[k1] && v@[k2] == pre[k2]);
            } else if k1 > idx {
                assert(v@[k1] == pre[k1 - 1] && v@[k2] == pre[k2 - 1]);
            } else if k1 < idx && k2 == idx {
                assert(v@[k1] == pre[k1]);
                assert(lex_le(pre[k1]@, nval));
                assert(pre[k1]@ != nval);
            } else if k1 == idx && k2 > idx {
                assert(v@[k2] == pre[k2 - 1]);
                assert(!lex_le(pre[idx as int]@, nval));
                lemma_lex_not_le(pre[idx as int]@, nval);
                if k2 - 1 > idx {
                    lemma_lex_trans(nval, pre[idx as int]@, pre[k2 - 1]@);
                } else {
                    assert(lex_le(nval, pre[idx as int]@));
                }
                assert(pre[k2 - 1]@ != nval);
            } else if k1 < idx && k2 > idx {
                assert(v@[k1] == pre[k1] && v@[k2] == pre[k2 - 1]);
            }
        }
        assert forall|n: Seq<char>|
            #[trigger] name_listed(v@, n) <==> (name_listed(pre, n) || n == nval) by {
            if name_listed(v@, n) {
                let w = choose|w: int| 0 <= w < v@.len() && (#[trigger] v@[w])@ == n;
                if w < idx {
                    assert(pre[w]@ == n);
                    assert(name_listed(pre, n));
                } else if w > idx {
                    assert(pre[w - 1]@ == n);
                    assert(name_listed(pre, n));
                }
            }
            if name_listed(pre, n) {
                let w = choose|w: int| 0 <= w < pre.len() && (#[trigger] pre[w])@ == n;
                if w < idx {
                    assert(v@[w]@ == n);
                    assert(name_listed(v@, n));
                } else {
                    assert(v@[w + 1]@ == n);
                    assert(name_listed(v@, n));
                }
            }
            if n == nval {
                assert(v@[idx as int]@ == n);
                assert(name_listed(v@, n));
            }
        }
    }
}

/// Group snapshot names by pool, sorted and deduplicated within each pool:
/// the utility refuses one call that creates equal names across pools, so
/// each pool gets its own call.  Pools appear in first-appearance order.
pub fn group_by_pool(names: Vec<String>) -> (r: Vec<PoolSnapshots>)
    ensures
        forall|g: int| 0 <= g < r@.len() ==> (#[trigger] r@[g]).snapshot_names@.len() > 0,
        forall|g: int|
            0 <= g < r@.len() ==> strictly_sorted_names((#[trigger] r@[g]).snapshot_names@),
        forall|g: int, k: int|
            0 <= g < r@.len() && 0 <= k < (#[trigger] r@[g]).snapshot_names@.len() ==> pool_of(
                (#[trigger] r@[g].snapshot_names@[k])@,
            ) == r@[g].pool_name@,
        forall|g1: int, g2: int|
            0 <= g1 < g2 < r@.len() ==> (#[trigger] r@[g1]).pool_name@ != (
            #[trigger] r@[g2]).pool_name@,
        forall|n: Seq<char>| #[trigger] grouped_name_listed(r@, n) <==> name_listed(names@, n),
{
    let mut groups: Vec<PoolSnapshots> = Vec::new();
    let mut rest = names;
    let total = rest.len();
    let ghost orig = rest@;
    let mut i: usize = 0;
    while rest.len() > 0
        invariant
            total == orig.len(),
            i + rest@.len() == orig.len(),
            rest@ == orig.subrange(i as int, orig.len() as int),
            forall|g: int| 0 <= g < groups@.len() ==> (#[trigger] groups@[g]).snapshot_names@.len() > 0,
            forall|g: int|
                0 <= g < groups@.len() ==> strictly_sorted_names(
                    (#[trigger] groups@[g]).snapshot_names@,
                ),
            forall|g: int, k: int|
                0 <= g < groups@.len() && 0 <= k < (#[trigger] groups@[g]).snapshot_names@.len()
                    ==> pool_of((#[trigger] groups@[g].snapshot_names@[k])@)
                    == groups@[g].pool_name@,
            forall|g1: int, g2: int|
                0 <= g1 < g2 < groups@.len() ==> (#[trigger] groups@[g1]).pool_name@ != (
                #[trigger] groups@[g2]).pool_name@,
            forall|n: Seq<char>|
                #[trigger] grouped_name_listed(groups@, n) <==> name_listed(
                    orig.subrange(0, i as int),
                    n,
                ),
        decreases rest@.len(),
    {
        let ghost pre_groups = groups@;
        let name = rest.remove(0);
        proof {
            assert(rest@ =~= orig.subrange(i + 1, orig.len() as int));
            assert(name == orig[i as int]);
        }
        let pool = pool_of_name(&name);
        let mut g: usize = 0;
        let mut found = false;
        while g < groups.len()
            invariant_except_break
                found == false,
                g <= groups@.len(),
                groups@ == pre_groups,
                pool@ == pool_of(name@),
                forall|g0: int| 0 <= g0 < g ==> (#[trigger] groups@[g0]).pool_name@ != pool@,
            ensures
                groups@ == pre_groups,
                pool@ == pool_of(name@),
                found ==> g < groups@.len() && groups@[g as int].pool_name@ == pool@,
                !found ==> forall|g0: int|
                    0 <= g0 < groups@.len() ==> (#[trigger] groups@[g0]).pool_name@ != pool@,
            decreases groups@.len() - g,
        {
            if groups[g].pool_name == pool {
                found = true;
                break;
            }
            g = g + 1;
        }
        if found {
            let mut grp = groups.remove(g);
            let ghost pre_grp_names = grp.snapshot_names@;
            if !name_present(&grp.snapshot_names, &name) {
                insert_name_sorted(&mut grp.snapshot_names, name);
            }
            let ghost new_grp = grp;
            groups.insert(g, grp);
            proof {
                assert(groups@ =~= pre_groups.update(g as int, new_grp));
                assert(new_grp.pool_name@ == pre_groups[g as int].pool_name@);
                assert forall|g0: int, k0: int|
                    0 <= g0 < groups@.len() && 0 <= k0 < (
                #[trigger] groups@[g0]).snapshot_names@.len() implies pool_of(
                    (#[trigger] groups@[g0].snapshot_names@[k0])@,
                ) == groups@[g0].pool_name@ by {
                    if g0 == g {
                        let n = groups@[g0].snapshot_names@[k0]@;
                        assert(name_listed(new_grp.snapshot_names@, n));
                        if name_listed(pre_grp_names, n) {
                            let w = choose|w: int|
                                0 <= w < pre_grp_names.len() && (#[trigger] pre_grp_names[w])@
                                    == n;
                            assert(pool_of(pre_groups[g as int].snapshot_names@[w]@)
                                == pre_groups[g as int].pool_name@);
                        } else {
                            assert(n == name@);
                        }
                    } else {
                        assert(groups@[g0] == pre_groups[g0]);
                    }
                }
                assert forall|n: Seq<char>|
                    #[trigger] grouped_name_listed(groups@, n) <==> name_listed(
                    orig.subrange(0, i + 1),
                    n,
                ) by {
                    lemma_name_in_prefix(orig, i as int, n);
                    if grouped_name_listed(groups@, n) {
                        let g0 = choose|g0: int|
                            0 <= g0 < groups@.len() && name_listed(
                                (#[trigger] groups@[g0]).snapshot_names@,
                                n,
                            );
                        if g0 != g {
                            assert(groups@[g0] == pre_groups[g0]);
                            assert(grouped_name_listed(pre_groups, n));
                        } else {
                            // the updated group holds only its old names
                            // and possibly the new one
                            assert(name_listed(new_grp.snapshot_names@, n));
                            if n != name@ {
                                assert(name_listed(pre_grp_names, n));
                                assert(name_listed(pre_groups[g as int].snapshot_names@, n));
                                assert(grouped_name_listed(pre_groups, n));
                            }
                        }
                    }
                    if name_listed(orig.subrange(0, i as int), n) {
                        assert(grouped_name_listed(pre_groups, n));
                        let g0 = choose|g0: int|
                            0 <= g0 < pre_groups.len() && name_listed(
                                (#[trigger] pre_groups[g0]).snapshot_names@,
                                n,
                            );
                        if g0 == g {
                            assert(name_listed(pre_grp_names, n));
                            assert(name_listed(new_grp.snapshot_names@, n));
                            assert(name_listed(groups@[g as int].snapshot_names@, n));
                        } else {
                            assert(name_listed(groups@[g0].snapshot_names@, n));
                        }
                        assert(grouped_name_listed(groups@, n));
                    }
                    if n == name@ {
                        assert(name_listed(new_grp.snapshot_names@, n));
                        assert(name_listed(groups@[g as int].snapshot_names@, n));
                        assert(grouped_name_listed(groups@, n));
                    }
                }
            }
        } else {
            let mut snapshot_names: Vec<String> = Vec::new();
            snapshot_names.push(name);
            groups.push(PoolSnapshots { pool_name: pool, snapshot_names });
            proof {
                assert forall|n: Seq<char>|
                    #[trigger] grouped_name_listed(groups@, n) <==> name_listed(
                    orig.subrange(0, i + 1),
                    n,
                ) by {
                    lemma_name_in_prefix(orig, i as int, n);
                    if grouped_name_listed(groups@, n) {
                        let g0 = choose|g0: int|
                            0 <= g0 < groups@.len() && name_listed(
                                (#[trigger] groups@[g0]).snapshot_names@,
                                n,
                            );
                        if g0 < pre_groups.len() {
                            assert(groups@[g0] == pre_groups[g0]);
                            assert(grouped_name_listed(pre_groups, n));
                        } else {
                            assert(groups@[g0].snapshot_names@[0]@ == n);
                        }
                    }
                    if name_listed(orig.subrange(0, i as int), n) {
                        assert(grouped_name_listed(pre_groups, n));
                        let g0 = choose|g0: int|
                            0 <= g0 < pre_groups.len() && name_listed(
                                (#[trigger] pre_groups[g0]).snapshot_names@,
                                n,
                            );
                        assert(name_listed(groups@[g0].snapshot_names@, n));
                        assert(grouped_name_listed(groups@, n));
                    }
                    if n == name@ {
                        assert(groups@[pre_groups.len() as int].snapshot_names@[0]@ == n);
                        assert(name_listed(
                            groups@[pre_groups.len() as int].snapshot_names@,
                            n,
                        ));
                        assert(grouped_name_listed(groups@, n));
                    }
                }
            }
        }
        i = i + 1;
    }
    proof {
        assert(orig.subrange(0, orig.len() as int) =~= orig);
    }
    groups
}

/// A name stands in the first `i + 1` names exactly when it stands in the
/// first `i` or is the name at `i`.
proof fn lemma_name_in_prefix(orig: Seq<String>, i: int, n: Seq<char>)
    requires
        0 <= i < orig.len(),
    ensures
        name_listed(orig.subrange(0, i + 1), n) <==> (name_listed(orig.subrange(0, i), n) || n
            == orig[i]@),
{
    let a = orig.subrange(0, i);
    let b = orig.subrange(0, i + 1);
    if name_listed(b, n) {
        let w = choose|w: int| 0 <= w < b.len() && (#[trigger] b[w])@ == n;
        if w < i {
            assert(a[w]@ == n);
        }
    }
    if name_listed(a, n) {
        let w = choose|w: int| 0 <= w < a.len() && (#[trigger] a[w])@ == n;
        assert(b[w]@ == n);
    }
    if n == orig[i]@ {
        assert(b[i]@ == n);
    }
}

/// Plan the snapshot batch: one snapshot name per candidate mount, all
/// sharing the caller's timestamp, grouped by pool and sorted within each
/// group.  The host utility is then invoked once per returned group.
pub fn take_snapshot(
    index: &MountIndex,
    aliases: &Vec<AliasEntry>,
    mounts_for_files: &MountsForFiles,
    timestamp: &str,
) -> (r: Result<Vec<PoolSnapshots>, HttmError>)
    requires
        index.wf(),
    ensures
        match r {
            Ok(groups) => {
                &&& forall|g: int|
                    0 <= g < groups@.len() ==> (#[trigger] groups@[g]).snapshot_names@.len() > 0
                &&& forall|g: int|
                    0 <= g < groups@.len() ==> strictly_sorted_names(
                        (#[trigger] groups@[g]).snapshot_names@,
                    )
                &&& forall|g: int, k: int|
                    0 <= g < groups@.len() && 0 <= k < (
                    #[trigger] groups@[g]).snapshot_names@.len() ==> pool_of(
                        (#[trigger] groups@[g].snapshot_names@[k])@,
                    ) == groups@[g].pool_name@
                &&& forall|g1: int, g2: int|
                    0 <= g1 < g2 < groups@.len() ==> (#[trigger] groups@[g1]).pool_name@ != (
                    #[trigger] groups@[g2]).pool_name@
                &&& forall|g: int, k: int|
                    0 <= g < groups@.len() && 0 <= k < (
                    #[trigger] groups@[g]).snapshot_names@.len() ==> valid_snapshot_name(
                        *index,
                        aliases@,
                        *mounts_for_files,
                        timestamp@,
                        (#[trigger] groups@[g].snapshot_names@[k])@,
                    )
                &&& forall|j: int, k: int|
                    mount_pos_ok(*mounts_for_files, j, k) ==> snapshotable(
                        *index,
                        aliases@,
                        #[trigger] mount_at(*mounts_for_files, j, k),
                    ) && grouped_name_listed(
                        groups@,
                        snapshot_name_spec(
                            index.dataset_of(mount_at(*mounts_for_files, j, k)).0,
                            timestamp@,
                        ),
                    )
            },
            Err(e) => exists|j: int, k: int|
                #![trigger mount_at(*mounts_for_files, j, k)]
                mount_pos_ok(*mounts_for_files, j, k) && {
                    let m = mount_at(*mounts_for_files, j, k);
                    ||| (e is UnsupportedAlias && alias_listed(aliases@, m))
                    ||| (e is NoDataset && !alias_listed(aliases@, m) && !index.has_mount(m))
                    ||| (e is UnsupportedFilesystem && !alias_listed(aliases@, m)
                        && index.has_mount(m) && index.dataset_of(m).1 != FilesystemType::Zfs)
                },
        },
{
    let names = match snapshot_names(index, aliases, mounts_for_files, timestamp) {
        Ok(names) => names,
        Err(e) => {
            return Err(e);
        },
    };
    let ghost names_view = names@;
    let groups = group_by_pool(names);
    proof {
        assert forall|g: int, k: int|
            0 <= g < groups@.len() && 0 <= k < (
        #[trigger] groups@[g]).snapshot_names@.len() implies valid_snapshot_name(
            *index,
            aliases@,
            *mounts_for_files,
            timestamp@,
            (#[trigger] groups@[g].snapshot_names@[k])@,
        ) by {
            let n = groups@[g].snapshot_names@[k]@;
            assert(name_listed(groups@[g].snapshot_names@, n));
            assert(grouped_name_listed(groups@, n));
            assert(name_listed(names_view, n));
            let t = choose|t: int| 0 <= t < names_view.len() && (#[trigger] names_view[t])@ == n;
            assert(valid_snapshot_name(*index, aliases@, *mounts_for_files, timestamp@, n));
        }
        assert forall|j: int, k: int|
            mount_pos_ok(*mounts_for_files, j, k) implies snapshotable(
            *index,
            aliases@,
            #[trigger] mount_at(*mounts_for_files, j, k),
        ) && grouped_name_listed(
            groups@,
            snapshot_name_spec(
                index.dataset_of(mount_at(*mounts_for_files, j, k)).0,
                timestamp@,
            ),
        ) by {
            assert(name_listed(
                names_view,
                snapshot_name_spec(
                    index.dataset_of(mount_at(*mounts_for_files, j, k)).0,
                    timestamp@,
                ),
            ));
        }
    }
    Ok(groups)
}

/// Classify what the snapshot utility wrote to its standard error: nothing
/// means success; a permission complaint means the caller must escalate;
/// anything else is surfaced raw.
pub fn interpret_snapshot_stderr(stderr: &str) -> (r: Result<(), HttmError>)
    ensures
        stderr@.len() == 0 <==> r is Ok,
        match r {
            Ok(_) => true,
            Err(e) => {
                if contains_seq(stderr@, "cannot create snapshots : permission denied"@) {
                    e is NeedsPrivilege
                } else {
                    e matches HttmError::SnapshotToolFailure(raw) && raw@ == stderr@
                }
            },
        },
{
    if stderr.unicode_len() == 0 {
        return Ok(());
    }
    if str_contains(stderr, "cannot create snapshots : permission denied") {
        Err(HttmError::NeedsPrivilege)
    } else {
        Err(HttmError::SnapshotToolFailure(stderr.to_owned()))
    }
}

} // verus!
