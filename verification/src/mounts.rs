use vstd::prelude::*;

use crate::FilesystemType;
use crate::path_rep::FsPath;

verus! {

/// What the mount table knows about one dataset: its logical name (for
/// example `tank/home`, never a path) and how it lays out snapshots.
#[derive(Debug)]
pub struct DatasetMetadata {
    pub name: String,
    pub fs_type: FilesystemType,
}

impl Clone for DatasetMetadata {
    fn clone(&self) -> (r: Self)
        ensures
            r.name@ == self.name@,
            r.fs_type == self.fs_type,
    {
        DatasetMetadata { name: self.name.clone(), fs_type: self.fs_type }
    }
}

/// One row of the mount table: a mount point and its dataset.
#[derive(Debug)]
pub struct DatasetEntry {
    pub mount: FsPath,
    pub md: DatasetMetadata,
}

/// A mount point together with an ordered list of related mount points:
/// either its snapshot-instance mounts, or its alternate replicas.
#[derive(Debug)]
pub struct MountListEntry {
    pub mount: FsPath,
    pub mounts: Vec<FsPath>,
}

/// The system's mount table, ingested once per invocation and frozen.
/// `datasets` maps each mount point to its dataset; `snaps`, when present,
/// maps mount points to the snapshot mounts the mount table already lists
/// (saving a directory listing per query); `alts`, when present, maps mount
/// points to their precomputed alternate replicas.
#[derive(Debug)]
pub struct MountIndex {
    pub datasets: Vec<DatasetEntry>,
    pub snaps: Option<Vec<MountListEntry>>,
    pub alts: Option<Vec<MountListEntry>>,
}

impl MountIndex {
    /// Is `m` a mount point of the table?
    pub open spec fn has_mount(&self, m: Seq<Seq<char>>) -> bool {
        exists|i: int| 0 <= i < self.datasets@.len() && self.datasets@[i].mount@ == m
    }

    /// The dataset of mount `m`, as (name, kind).  Meaningful only when
    /// `has_mount(m)` holds; well-defined then because keys are unique.
    pub open spec fn dataset_of(&self, m: Seq<Seq<char>>) -> (Seq<char>, FilesystemType) {
        let i = choose|i: int| 0 <= i < self.datasets@.len() && self.datasets@[i].mount@ == m;
        (self.datasets@[i].md.name@, self.datasets@[i].md.fs_type)
    }

    /// Does the (optional) snapshot-mount table hold an entry for `m`?
    pub open spec fn has_snap_entry(&self, m: Seq<Seq<char>>) -> bool {
        &&& self.snaps is Some
        &&& exists|i: int|
            0 <= i < self.snaps->Some_0@.len() && self.snaps->Some_0@[i].mount@ == m
    }

    /// The snapshot mounts listed for `m`, where `has_snap_entry(m)`.
    pub open spec fn snap_mounts_of(&self, m: Seq<Seq<char>>) -> Seq<Seq<Seq<char>>> {
        let i = choose|i: int|
            0 <= i < self.snaps->Some_0@.len() && self.snaps->Some_0@[i].mount@ == m;
        self.snaps->Some_0@[i].mounts.deep_view()
    }

    /// Does the (optional) alternate-replica table hold an entry for `m`?
    pub open spec fn has_alt_entry(&self, m: Seq<Seq<char>>) -> bool {
        &&& self.alts is Some
        &&& exists|i: int| 0 <= i < self.alts->Some_0@.len() && self.alts->Some_0@[i].mount@ == m
    }

    /// The alternate replicas listed for `m`, where `has_alt_entry(m)`.
    pub open spec fn alt_mounts_of(&self, m: Seq<Seq<char>>) -> Seq<Seq<Seq<char>>> {
        let i = choose|i: int|
            0 <= i < self.alts->Some_0@.len() && self.alts->Some_0@[i].mount@ == m;
        self.alts->Some_0@[i].mounts.deep_view()
    }

    /// Well-formedness: keys are unique in each table, every mount a
    /// snapshot or alternate entry names is a key of the dataset table, and
    /// a precomputed alternate really is an alternate replica of its key.
    pub open spec fn wf(&self) -> bool {
        &&& forall|i: int, j: int|
            0 <= i < j < self.datasets@.len() ==> self.datasets@[i].mount@
                != self.datasets@[j].mount@
        &&& (self.snaps is Some ==> forall|i: int, j: int|
            0 <= i < j < self.snaps->Some_0@.len() ==> self.snaps->Some_0@[i].mount@
                != self.snaps->Some_0@[j].mount@)
        &&& (self.snaps is Some ==> forall|i: int|
            0 <= i < self.snaps->Some_0@.len() ==> self.has_mount(
                #[trigger] self.snaps->Some_0@[i].mount@,
            ))
        &&& (self.alts is Some ==> forall|i: int, j: int|
            0 <= i < j < self.alts->Some_0@.len() ==> self.alts->Some_0@[i].mount@
                != self.alts->Some_0@[j].mount@)
        &&& (self.alts is Some ==> forall|i: int|
            0 <= i < self.alts->Some_0@.len() ==> self.has_mount(
                #[trigger] self.alts->Some_0@[i].mount@,
            ))
        &&& (self.alts is Some ==> forall|i: int, j: int|
            0 <= i < self.alts->Some_0@.len() && 0 <= j
                < self.alts->Some_0@[i].mounts.deep_view().len() ==> self.is_alt_replica(
                self.alts->Some_0@[i].mount@,
                #[trigger] self.alts->Some_0@[i].mounts.deep_view()[j],
            ))
    }

    /// In a well-formed table, row `i` speaks for its own mount point.
    pub proof fn lemma_entry_dataset(&self, i: int)
        requires
            self.wf(),
            0 <= i < self.datasets@.len(),
        ensures
            self.has_mount(self.datasets@[i].mount@),
            self.dataset_of(self.datasets@[i].mount@) == (
                self.datasets@[i].md.name@,
                self.datasets@[i].md.fs_type,
            ),
    {
        let m = self.datasets@[i].mount@;
        assert(self.has_mount(m));
        let w = choose|w: int| 0 <= w < self.datasets@.len() && self.datasets@[w].mount@ == m;
        assert(w == i);
    }

    /// Look up the dataset of a mount point.
    pub fn get_dataset(&self, m: &FsPath) -> (r: Option<&DatasetMetadata>)
        requires
            self.wf(),
        ensures
            match r {
                Some(md) => self.has_mount(m@) && (md.name@, md.fs_type) == self.dataset_of(m@),
                None => !self.has_mount(m@),
            },
    {
        let mut i: usize = 0;
        while i < self.datasets.len()
            invariant
                self.wf(),
                i <= self.datasets@.len(),
                forall|j: int| 0 <= j < i ==> self.datasets@[j].mount@ != m@,
            decreases self.datasets@.len() - i,
        {
            if self.datasets[i].mount.is_same(m) {
                proof {
                    let w = choose|w: int|
                        0 <= w < self.datasets@.len() && self.datasets@[w].mount@ == m@;
                    assert(w == i);
                }
                return Some(&self.datasets[i].md);
            }
            i = i + 1;
        }
        None
    }

    /// Is `m` a mount point of the table?
    pub fn contains_mount(&self, m: &FsPath) -> (r: bool)
        requires
            self.wf(),
        ensures
            r == self.has_mount(m@),
    {
        self.get_dataset(m).is_some()
    }

    /// Look up the snapshot mounts the mount table lists for `m`.
    pub fn get_snap_mounts(&self, m: &FsPath) -> (r: Option<&Vec<FsPath>>)
        requires
            self.wf(),
        ensures
            match r {
                Some(v) => self.has_snap_entry(m@) && v.deep_view() == self.snap_mounts_of(m@),
                None => !self.has_snap_entry(m@),
            },
    {
        match &self.snaps {
            None => None,
            Some(snaps) => {
                let mut i: usize = 0;
                while i < snaps.len()
                    invariant
                        self.wf(),
                        self.snaps == Some(*snaps),
                        i <= snaps@.len(),
                        forall|j: int| 0 <= j < i ==> snaps@[j].mount@ != m@,
                    decreases snaps@.len() - i,
                {
                    if snaps[i].mount.is_same(m) {
                        proof {
                            let w = choose|w: int|
                                0 <= w < self.snaps->Some_0@.len()
                                    && self.snaps->Some_0@[w].mount@ == m@;
                            assert(w == i);
                        }
                        return Some(&snaps[i].mounts);
                    }
                    i = i + 1;
                }
                None
            },
        }
    }

    /// Look up the precomputed alternate replicas of `m`.
    pub fn get_alt_mounts(&self, m: &FsPath) -> (r: Option<&Vec<FsPath>>)
        requires
            self.wf(),
        ensures
            match r {
                Some(v) => self.has_alt_entry(m@) && v.deep_view() == self.alt_mounts_of(m@),
                None => !self.has_alt_entry(m@),
            },
    {
        match &self.alts {
            None => None,
            Some(alts) => {
                let mut i: usize = 0;
                while i < alts.len()
                    invariant
                        self.wf(),
                        self.alts == Some(*alts),
                        i <= alts@.len(),
                        forall|j: int| 0 <= j < i ==> alts@[j].mount@ != m@,
                    decreases alts@.len() - i,
                {
                    if alts[i].mount.is_same(m) {
                        proof {
                            let w = choose|w: int|
                                0 <= w < self.alts->Some_0@.len()
                                    && self.alts->Some_0@[w].mount@ == m@;
                            assert(w == i);
                        }
                        return Some(&alts[i].mounts);
                    }
                    i = i + 1;
                }
                None
            },
        }
    }
}

/// Two rows of the dataset table share a mount point.
pub open spec fn has_duplicate_mounts(datasets: Seq<DatasetEntry>) -> bool {
    exists|a: int, b: int|
        0 <= a < b < datasets.len() && (#[trigger] datasets[a]).mount@ == (
        #[trigger] datasets[b]).mount@
}

/// Some row of the dataset table carries mount `m`.
pub open spec fn rows_have_mount(datasets: Seq<DatasetEntry>, m: Seq<Seq<char>>) -> bool {
    exists|i: int| 0 <= i < datasets.len() && (#[trigger] datasets[i]).mount@ == m
}

/// The snapshot table is unusable: an entry names no mount of the dataset
/// table, or two entries name the same mount.
pub open spec fn snaps_ill_formed(
    datasets: Seq<DatasetEntry>,
    snaps: Option<Vec<MountListEntry>>,
) -> bool {
    &&& snaps is Some
    &&& {
        ||| exists|a: int|
            0 <= a < snaps->Some_0@.len() && !rows_have_mount(
                datasets,
                (#[trigger] snaps->Some_0@[a]).mount@,
            )
        ||| exists|a: int, b: int|
            0 <= a < b < snaps->Some_0@.len() && (#[trigger] snaps->Some_0@[a]).mount@ == (
            #[trigger] snaps->Some_0@[b]).mount@
    }
}

/// Does some dataset row carry this mount?
fn rows_contain(datasets: &Vec<DatasetEntry>, upto: usize, m: &FsPath) -> (r: bool)
    requires
        upto <= datasets@.len(),
    ensures
        r == exists|i: int| 0 <= i < upto && (#[trigger] datasets@[i]).mount@ == m@,
{
    let mut i: usize = 0;
    while i < upto
        invariant
            upto <= datasets@.len(),
            i <= upto,
            forall|j: int| 0 <= j < i ==> (#[trigger] datasets@[j]).mount@ != m@,
        decreases upto - i,
    {
        if datasets[i].mount.is_same(m) {
            return true;
        }
        i = i + 1;
    }
    false
}

impl MountIndex {
    /// Ingest a mount table: refuse duplicate mount points, refuse
    /// snapshot entries that name no mount of the table or repeat one, and
    /// return a table every lookup can trust.  Alternate replicas are not
    /// precomputed here; `with_alternates` adds them.
    pub fn new(datasets: Vec<DatasetEntry>, snaps: Option<Vec<MountListEntry>>) -> (r: Option<
        MountIndex,
    >)
        ensures
            match r {
                Some(index) => {
                    &&& index.wf()
                    &&& index.datasets@ == datasets@
                    &&& index.snaps == snaps
                    &&& index.alts is None
                    &&& !has_duplicate_mounts(datasets@)
                    &&& !snaps_ill_formed(datasets@, snaps)
                },
                None => has_duplicate_mounts(datasets@) || snaps_ill_formed(datasets@, snaps),
            },
    {
        let mut i: usize = 1;
        while i < datasets.len()
            invariant
                i >= 1,
                i <= datasets@.len() || datasets@.len() == 0,
                forall|a: int, b: int|
                    0 <= a < b < i && b < datasets@.len() ==> (#[trigger] datasets@[a]).mount@ != (
                    #[trigger] datasets@[b]).mount@,
            decreases datasets@.len() - i,
        {
            if rows_contain(&datasets, i, &datasets[i].mount) {
                proof {
                    let a = choose|a: int|
                        0 <= a < i && (#[trigger] datasets@[a]).mount@
                            == datasets@[i as int].mount@;
                    assert(has_duplicate_mounts(datasets@));
                }
                return None;
            }
            i = i + 1;
        }

        proof {
            if has_duplicate_mounts(datasets@) {
                let (a, b) = choose|a: int, b: int|
                    0 <= a < b < datasets@.len() && (#[trigger] datasets@[a]).mount@ == (
                    #[trigger] datasets@[b]).mount@;
                assert(false);
            }
        }
        let index = MountIndex { datasets, snaps: None, alts: None };
        proof {
            assert(index.wf());
        }

        match snaps {
            None => Some(index),
            Some(snap_entries) => {
                let mut k: usize = 0;
                while k < snap_entries.len()
                    invariant
                        index.wf(),
                        index.snaps is None,
                        index.alts is None,
                        index.datasets@ == datasets@,
                        snaps == Some(snap_entries),
                        k <= snap_entries@.len(),
                        forall|a: int, b: int|
                            0 <= a < b < k ==> (#[trigger] snap_entries@[a]).mount@ != (
                            #[trigger] snap_entries@[b]).mount@,
                        forall|a: int|
                            0 <= a < k ==> index.has_mount(
                                (#[trigger] snap_entries@[a]).mount@,
                            ),
                    decreases snap_entries@.len() - k,
                {
                    if !index.contains_mount(&snap_entries[k].mount) {
                        proof {
                            assert(!rows_have_mount(
                                index.datasets@,
                                snap_entries@[k as int].mount@,
                            )) by {
                                if rows_have_mount(
                                    index.datasets@,
                                    snap_entries@[k as int].mount@,
                                ) {
                                    let w = choose|w: int|
                                        0 <= w < index.datasets@.len() && (
                                        #[trigger] index.datasets@[w]).mount@
                                            == snap_entries@[k as int].mount@;
                                    assert(index.has_mount(snap_entries@[k as int].mount@));
                                }
                            }
                            assert((Some(snap_entries))->Some_0@ == snap_entries@);
                            assert(snaps_ill_formed(index.datasets@, Some(snap_entries)));
                            assert(index.datasets@ == datasets@);
                            assert(snaps == Some(snap_entries));
                        }
                        return None;
                    }
                    let mut a: usize = 0;
                    while a < k
                        invariant
                            index.datasets@ == datasets@,
                            snaps == Some(snap_entries),
                            a <= k < snap_entries@.len(),
                            forall|b: int|
                                0 <= b < a ==> (#[trigger] snap_entries@[b]).mount@
                                    != snap_entries@[k as int].mount@,
                        decreases k - a,
                    {
                        if snap_entries[a].mount.is_same(&snap_entries[k].mount) {
                            proof {
                                assert((Some(snap_entries))->Some_0@ == snap_entries@);
                                assert((Some(snap_entries))->Some_0@[a as int].mount@ == (Some(
                                    snap_entries,
                                ))->Some_0@[k as int].mount@);
                                assert(snaps_ill_formed(index.datasets@, Some(snap_entries)));
                                assert(index.datasets@ == datasets@);
                                assert(snaps == Some(snap_entries));
                            }
                            return None;
                        }
                        a = a + 1;
                    }
                    k = k + 1;
                }
                proof {
                    if snaps_ill_formed(index.datasets@, Some(snap_entries)) {
                        if exists|a: int|
                            0 <= a < snap_entries@.len() && !rows_have_mount(
                                index.datasets@,
                                (#[trigger] snap_entries@[a]).mount@,
                            ) {
                            let a = choose|a: int|
                                0 <= a < snap_entries@.len() && !rows_have_mount(
                                    index.datasets@,
                                    (#[trigger] snap_entries@[a]).mount@,
                                );
                            assert(index.has_mount(snap_entries@[a].mount@));
                            let w = choose|w: int|
                                0 <= w < index.datasets@.len()
                                    && index.datasets@[w].mount@ == snap_entries@[a].mount@;
                            assert(rows_have_mount(index.datasets@, snap_entries@[a].mount@));
                        } else {
                            let (a, b) = choose|a: int, b: int|
                                0 <= a < b < snap_entries@.len()
                                    && (#[trigger] snap_entries@[a]).mount@ == (
                                #[trigger] snap_entries@[b]).mount@;
                            assert(false);
                        }
                    }
                }
                let full = MountIndex {
                    datasets: index.datasets,
                    snaps: Some(snap_entries),
                    alts: None,
                };
                proof {
                    assert(full.wf());
                }
                Some(full)
            },
        }
    }

    /// Precompute the alternate replicas of every mount, as one does when
    /// the caller opts into alternate-replica search: each mount with at
    /// least one replica gets an entry; the rest stay absent.
    #[verifier::rlimit(100)]
    pub fn with_alternates(self) -> (r: MountIndex)
        requires
            self.wf(),
            self.alts is None,
        ensures
            r.wf(),
            r.datasets@ == self.datasets@,
            r.snaps == self.snaps,
            r.alts is Some,
            forall|m: Seq<Seq<char>>|
                #[trigger] r.has_alt_entry(m) <==> crate::versions_lookup::some_alt_replica(
                    self,
                    m,
                ),
            forall|i: int|
                0 <= i < r.alts->Some_0@.len() ==> (forall|k: int|
                    0 <= k < (#[trigger] r.alts->Some_0@[i]).mounts.deep_view().len()
                        ==> self.is_alt_replica(
                        r.alts->Some_0@[i].mount@,
                        #[trigger] r.alts->Some_0@[i].mounts.deep_view()[k],
                    )),
    {
        let mut alts: Vec<MountListEntry> = Vec::new();
        let mut i: usize = 0;
        while i < self.datasets.len()
            invariant
                self.wf(),
                i <= self.datasets@.len(),
                forall|a: int, b: int|
                    0 <= a < b < alts@.len() ==> (#[trigger] alts@[a]).mount@ != (
                    #[trigger] alts@[b]).mount@,
                forall|a: int|
                    0 <= a < alts@.len() ==> self.has_mount((#[trigger] alts@[a]).mount@),
                forall|a: int|
                    0 <= a < alts@.len() ==> exists|i0: int|
                        0 <= i0 < i && (#[trigger] alts@[a]).mount@ == self.datasets@[i0].mount@,
                forall|a: int|
                    0 <= a < alts@.len() ==> (forall|k: int|
                        0 <= k < (#[trigger] alts@[a]).mounts.deep_view().len()
                            ==> self.is_alt_replica(
                            alts@[a].mount@,
                            #[trigger] alts@[a].mounts.deep_view()[k],
                        )),
                forall|i0: int|
                    0 <= i0 < i && crate::versions_lookup::some_alt_replica(
                        self,
                        (#[trigger] self.datasets@[i0]).mount@,
                    ) ==> exists|a: int|
                        0 <= a < alts@.len() && (#[trigger] alts@[a]).mount@
                            == self.datasets@[i0].mount@,
                forall|a: int|
                    0 <= a < alts@.len() ==> crate::versions_lookup::some_alt_replica(
                        self,
                        (#[trigger] alts@[a]).mount@,
                    ),
            decreases self.datasets@.len() - i,
        {
            let mount = self.datasets[i].mount.clone();
            proof {
                self.lemma_entry_dataset(i as int);
            }
            let ghost pre_alts = alts@;
            match crate::versions_lookup::get_alt_replicated_datasets(&mount, &self) {
                Ok(found) => {
                    proof {
                        assert(self.is_alt_replica(
                            mount@,
                            found.datasets_of_interest@[0]@,
                        ));
                        assert(found.datasets_of_interest.deep_view()[0]
                            == found.datasets_of_interest@[0]@);
                    }
                    let ghost new_entry_mounts = found.datasets_of_interest;
                    alts.push(
                        MountListEntry { mount, mounts: found.datasets_of_interest },
                    );
                    proof {
                        assert forall|a: int|
                            0 <= a < alts@.len() implies exists|i0: int|
                            0 <= i0 < i + 1 && (#[trigger] alts@[a]).mount@
                                == self.datasets@[i0].mount@ by {
                            if a < pre_alts.len() {
                                assert(alts@[a] == pre_alts[a]);
                            } else {
                                assert(alts@[a].mount@ == self.datasets@[i as int].mount@);
                            }
                        }
                        assert forall|a: int|
                            0 <= a < alts@.len() implies self.has_mount(
                            (#[trigger] alts@[a]).mount@,
                        ) by {
                            if a < pre_alts.len() {
                                assert(alts@[a] == pre_alts[a]);
                            }
                        }
                        assert forall|a: int, k: int|
                            0 <= a < alts@.len() && 0 <= k < (
                        #[trigger] alts@[a]).mounts.deep_view().len() implies self.is_alt_replica(
                            alts@[a].mount@,
                            #[trigger] alts@[a].mounts.deep_view()[k],
                        ) by {
                            if a < pre_alts.len() {
                                assert(alts@[a] == pre_alts[a]);
                            } else {
                                assert(alts@[a].mounts.deep_view()[k]
                                    == new_entry_mounts@[k]@);
                                assert(self.is_alt_replica(
                                    alts@[a].mount@,
                                    new_entry_mounts@[k]@,
                                ));
                            }
                        }
                        assert forall|a: int|
                            0 <= a < alts@.len() implies crate::versions_lookup::some_alt_replica(
                            self,
                            (#[trigger] alts@[a]).mount@,
                        ) by {
                            if a < pre_alts.len() {
                                assert(alts@[a] == pre_alts[a]);
                            } else {
                                assert(self.is_alt_replica(
                                    alts@[a].mount@,
                                    new_entry_mounts@[0]@,
                                ));
                            }
                        }
                        assert forall|a: int, b: int|
                            0 <= a < b < alts@.len() implies (#[trigger] alts@[a]).mount@ != (
                        #[trigger] alts@[b]).mount@ by {
                            if b == pre_alts.len() {
                                let i0 = choose|i0: int|
                                    0 <= i0 < i && (#[trigger] pre_alts[a]).mount@
                                        == self.datasets@[i0].mount@;
                                assert(self.datasets@[i0].mount@
                                    != self.datasets@[i as int].mount@);
                            } else {
                                assert(alts@[a] == pre_alts[a] && alts@[b] == pre_alts[b]);
                            }
                        }
                        assert forall|i0: int|
                            0 <= i0 < i + 1 && crate::versions_lookup::some_alt_replica(
                                self,
                                (#[trigger] self.datasets@[i0]).mount@,
                            ) implies exists|a: int|
                            0 <= a < alts@.len() && (#[trigger] alts@[a]).mount@
                                == self.datasets@[i0].mount@ by {
                            if i0 < i {
                                let a = choose|a: int|
                                    0 <= a < pre_alts.len() && (#[trigger] pre_alts[a]).mount@
                                        == self.datasets@[i0].mount@;
                                assert(alts@[a].mount@ == self.datasets@[i0].mount@);
                            } else {
                                assert(alts@[pre_alts.len() as int].mount@
                                    == self.datasets@[i0].mount@);
                            }
                        }
                    }
                },
                Err(_) => {
                    proof {
                        assert forall|i0: int|
                            0 <= i0 < i + 1 && crate::versions_lookup::some_alt_replica(
                                self,
                                (#[trigger] self.datasets@[i0]).mount@,
                            ) implies exists|a: int|
                            0 <= a < alts@.len() && (#[trigger] alts@[a]).mount@
                                == self.datasets@[i0].mount@ by {
                            if i0 == i {
                                let m2 = choose|m2: Seq<Seq<char>>|
                                    #[trigger] self.is_alt_replica(
                                        self.datasets@[i0].mount@,
                                        m2,
                                    );
                                assert(!self.is_alt_replica(mount@, m2));
                            }
                        }
                    }
                },
            }
            i = i + 1;
        }

        let r = MountIndex { datasets: self.datasets, snaps: self.snaps, alts: Some(alts) };
        proof {
            assert forall|m: Seq<Seq<char>>|
                #[trigger] r.has_alt_entry(m) implies crate::versions_lookup::some_alt_replica(
                self,
                m,
            ) by {
                let a = choose|a: int|
                    0 <= a < r.alts->Some_0@.len() && (#[trigger] r.alts->Some_0@[a]).mount@ == m;
                assert(crate::versions_lookup::some_alt_replica(
                    self,
                    r.alts->Some_0@[a].mount@,
                ));
            }
            assert forall|m: Seq<Seq<char>>|
                crate::versions_lookup::some_alt_replica(self, m) implies #[trigger] r.has_alt_entry(
                m,
            ) by {
                let m2 = choose|m2: Seq<Seq<char>>| #[trigger] self.is_alt_replica(m, m2);
                assert(self.has_mount(m));
                let i0 = choose|i0: int|
                    0 <= i0 < self.datasets@.len() && (#[trigger] self.datasets@[i0]).mount@ == m;
                assert(crate::versions_lookup::some_alt_replica(
                    self,
                    self.datasets@[i0].mount@,
                ));
                let a = choose|a: int|
                    0 <= a < r.alts->Some_0@.len() && (#[trigger] r.alts->Some_0@[a]).mount@
                        == self.datasets@[i0].mount@;
            }
            assert forall|a: int, k: int|
                0 <= a < r.alts->Some_0@.len() && 0 <= k < (
            #[trigger] r.alts->Some_0@[a]).mounts.deep_view().len() implies r.is_alt_replica(
                r.alts->Some_0@[a].mount@,
                #[trigger] r.alts->Some_0@[a].mounts.deep_view()[k],
            ) by {
                assert(self.is_alt_replica(
                    r.alts->Some_0@[a].mount@,
                    r.alts->Some_0@[a].mounts.deep_view()[k],
                ));
            }
            assert(r.wf());
        }
        r
    }
}

} // verus!
