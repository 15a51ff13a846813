use vstd::prelude::*;

use crate::pathdata::BasicDirEntryInfo;
pub use crate::strings::name_listed;

verus! {

/// Some entry carries the name `n`.
pub open spec fn entry_named(entries: Seq<BasicDirEntryInfo>, n: Seq<char>) -> bool {
    exists|k: int| 0 <= k < entries.len() && (#[trigger] entries[k]).file_name@ == n
}

/// No entry's name occurs in the live listing.
pub open spec fn excludes_names(entries: Seq<BasicDirEntryInfo>, names: Seq<String>) -> bool {
    forall|j: int| 0 <= j < entries.len() ==> !name_listed(names, (#[trigger] entries[j]).file_name@)
}

/// Entry views agree: same name, path and kind.
pub open spec fn entry_matches(a: BasicDirEntryInfo, b: BasicDirEntryInfo) -> bool {
    a.file_name@ == b.file_name@ && a.path@ == b.path@ && a.file_type == b.file_type
}

/// No two entries share a name.
pub open spec fn distinct_names(entries: Seq<BasicDirEntryInfo>) -> bool {
    forall|j1: int, j2: int|
        0 <= j1 < j2 < entries.len() ==> (#[trigger] entries[j1]).file_name@ != (
        #[trigger] entries[j2]).file_name@
}

/// Is `n` one of the live names?
fn name_in_listing(names: &Vec<String>, n: &String) -> (r: bool)
    ensures
        r == name_listed(names@, n@),
{
    let mut k: usize = 0;
    while k < names.len()
        invariant
            k <= names@.len(),
            forall|j: int| 0 <= j < k ==> (#[trigger] names@[j])@ != n@,
        decreases names@.len() - k,
    {
        if names[k] == *n {
            return true;
        }
        k = k + 1;
    }
    false
}

/// Does some collected entry already carry this name?
fn name_in_entries(entries: &Vec<BasicDirEntryInfo>, n: &String) -> (r: bool)
    ensures
        r == entry_named(entries@, n@),
{
    let mut k: usize = 0;
    while k < entries.len()
        invariant
            k <= entries@.len(),
            forall|j: int| 0 <= j < k ==> (#[trigger] entries@[j]).file_name@ != n@,
        decreases entries@.len() - k,
    {
        if entries[k].file_name == *n {
            return true;
        }
        k = k + 1;
    }
    false
}

/// The filter the deleted comparison applies: an entry survives when its
/// name is absent from the live directory listing.
pub open spec fn snap_only_pred(live_names: Seq<String>) -> spec_fn(BasicDirEntryInfo) -> bool {
    |e: BasicDirEntryInfo| !name_listed(live_names, e.file_name@)
}

/// Compare one dataset's snapshot listings against the live directory
/// listing: every observation whose name exists in some snapshot but not
/// live, in listing order.  Nothing collapses here: the same name may
/// recur across snapshots, and the grouping pass must see every
/// incarnation to pick the most recent one.
pub fn get_deleted_per_dataset(
    live_names: &Vec<String>,
    snap_entries: &Vec<BasicDirEntryInfo>,
) -> (r: Vec<BasicDirEntryInfo>)
    ensures
        excludes_names(r@, live_names@),
        r@.len() == snap_entries@.filter(snap_only_pred(live_names@)).len(),
        forall|j: int|
            0 <= j < r@.len() ==> entry_matches(
                #[trigger] r@[j],
                snap_entries@.filter(snap_only_pred(live_names@))[j],
            ),
{
    let mut r: Vec<BasicDirEntryInfo> = Vec::new();
    let mut i: usize = 0;
    proof {
        reveal(Seq::filter);
        assert(snap_entries@.subrange(0, 0).filter(snap_only_pred(live_names@)) =~= Seq::<
            BasicDirEntryInfo,
        >::empty());
    }
    while i < snap_entries.len()
        invariant
            i <= snap_entries@.len(),
            excludes_names(r@, live_names@),
            r@.len() == snap_entries@.subrange(0, i as int).filter(
                snap_only_pred(live_names@),
            ).len(),
            forall|j: int|
                0 <= j < r@.len() ==> entry_matches(
                    #[trigger] r@[j],
                    snap_entries@.subrange(0, i as int).filter(snap_only_pred(live_names@))[j],
                ),
        decreases snap_entries@.len() - i,
    {
        let entry = &snap_entries[i];
        let ghost pred = snap_only_pred(live_names@);
        let ghost pre = r@;
        let ghost pre_filtered = snap_entries@.subrange(0, i as int).filter(pred);
        proof {
            reveal(Seq::filter);
            assert(snap_entries@.subrange(0, i + 1).drop_last() =~= snap_entries@.subrange(
                0,
                i as int,
            ));
            assert(snap_entries@.subrange(0, i + 1).last() == snap_entries@[i as int]);
            assert(pred(snap_entries@[i as int]) == !name_listed(
                live_names@,
                snap_entries@[i as int].file_name@,
            ));
        }
        if !name_in_listing(live_names, &entry.file_name) {
            r.push(entry.clone());
            proof {
                assert(snap_entries@.subrange(0, i + 1).filter(pred) == pre_filtered.push(
                    snap_entries@[i as int],
                ));
                assert forall|j: int| 0 <= j < r@.len() implies entry_matches(
                    #[trigger] r@[j],
                    snap_entries@.subrange(0, i + 1).filter(pred)[j],
                ) by {
                    if j < pre.len() {
                        assert(r@[j] == pre[j]);
                        assert(snap_entries@.subrange(0, i + 1).filter(pred)[j]
                            == pre_filtered[j]);
                    } else {
                        assert(entry_matches(r@[j], snap_entries@[i as int]));
                    }
                }
            }
        } else {
            proof {
                assert(snap_entries@.subrange(0, i + 1).filter(pred) == pre_filtered);
            }
        }
        i = i + 1;
    }
    proof {
        assert(snap_entries@.subrange(0, snap_entries@.len() as int) =~= snap_entries@);
    }
    r
}

/// Group deleted-name observations by file name, and keep, for each name,
/// the observation with the greatest modify time: the most recently
/// deleted incarnation, the newest tree to recurse behind.  `mtimes[i]` is
/// the stat result of `deleted[i]`'s snapshot path; entries whose stat
/// failed are dropped.
pub fn get_unique_deleted(
    deleted: &Vec<BasicDirEntryInfo>,
    mtimes: &Vec<Option<u64>>,
) -> (r: Vec<BasicDirEntryInfo>)
    requires
        deleted@.len() == mtimes@.len(),
    ensures
        distinct_names(r@),
        // each representative is an observation of its name with maximal
        // mtime among that name's observations
        forall|j: int|
            0 <= j < r@.len() ==> exists|i: int|
                0 <= i < deleted@.len() && entry_matches(#[trigger] r@[j], deleted@[i])
                    && mtimes@[i] is Some && (forall|i2: int|
                    0 <= i2 < deleted@.len() && (#[trigger] deleted@[i2]).file_name@
                        == r@[j].file_name@ && mtimes@[i2] is Some ==> mtimes@[i2]->Some_0
                        <= mtimes@[i]->Some_0),
        // every observed name is represented
        forall|i: int|
            0 <= i < deleted@.len() && (#[trigger] mtimes@[i]) is Some ==> entry_named(
                r@,
                deleted@[i].file_name@,
            ),
{
    let mut r: Vec<BasicDirEntryInfo> = Vec::new();
    let mut i: usize = 0;
    while i < deleted.len()
        invariant
            deleted@.len() == mtimes@.len(),
            i <= deleted@.len(),
            distinct_names(r@),
            forall|j: int|
                0 <= j < r@.len() ==> exists|i0: int|
                    0 <= i0 < deleted@.len() && entry_matches(#[trigger] r@[j], deleted@[i0])
                        && mtimes@[i0] is Some && (forall|i2: int|
                        0 <= i2 < deleted@.len() && (#[trigger] deleted@[i2]).file_name@
                            == r@[j].file_name@ && mtimes@[i2] is Some ==> mtimes@[i2]->Some_0
                            <= mtimes@[i0]->Some_0),
            forall|i0: int|
                0 <= i0 < i && (#[trigger] mtimes@[i0]) is Some ==> entry_named(
                    r@,
                    deleted@[i0].file_name@,
                ),
        decreases deleted@.len() - i,
    {
        if mtimes[i].is_some() && !name_in_entries(&r, &deleted[i].file_name) {
            // this is the first surviving observation of the name: scan
            // every observation of it for the greatest mtime
            let mut best: usize = i;
            let mut best_mtime: u64 = match mtimes[i] {
                Some(mt) => mt,
                None => 0,
            };
            let mut k: usize = i + 1;
            while k < deleted.len()
                invariant
                    deleted@.len() == mtimes@.len(),
                    i < deleted@.len(),
                    i <= best < deleted@.len(),
                    i < k <= deleted@.len(),
                    mtimes@[best as int] is Some,
                    best_mtime == mtimes@[best as int]->Some_0,
                    deleted@[best as int].file_name@ == deleted@[i as int].file_name@,
                    forall|i2: int|
                        0 <= i2 < k && (#[trigger] deleted@[i2]).file_name@
                            == deleted@[i as int].file_name@ && mtimes@[i2] is Some
                            ==> mtimes@[i2]->Some_0 <= best_mtime,
                decreases deleted@.len() - k,
            {
                if deleted[k].file_name == deleted[i].file_name {
                    if let Some(mt) = mtimes[k] {
                        if mt > best_mtime {
                            best = k;
                            best_mtime = mt;
                        }
                    }
                }
                k = k + 1;
            }
            let ghost pre = r@;
            r.push(deleted[best].clone());
            proof {
                assert(entry_matches(r@[pre.len() as int], deleted@[best as int]));
                assert forall|i0: int|
                    0 <= i0 < i + 1 && (#[trigger] mtimes@[i0]) is Some implies entry_named(
                    r@,
                    deleted@[i0].file_name@,
                ) by {
                    if i0 < i {
                        let w = choose|w: int|
                            0 <= w < pre.len() && (#[trigger] pre[w]).file_name@
                                == deleted@[i0].file_name@;
                        assert(r@[w].file_name@ == deleted@[i0].file_name@);
                    } else {
                        assert(r@[pre.len() as int].file_name@ == deleted@[i0].file_name@);
                    }
                }
            }
        } else {
            proof {
                assert forall|i0: int|
                    0 <= i0 < i + 1 && (#[trigger] mtimes@[i0]) is Some implies entry_named(
                    r@,
                    deleted@[i0].file_name@,
                ) by {}
            }
        }
        i = i + 1;
    }
    r
}

/// The deleted enumerator never returns a live name: representatives come
/// only from observations, and the per-dataset pass already excluded every
/// live name from those.
pub proof fn lemma_deleted_never_live(
    live_names: Seq<String>,
    observations: Seq<BasicDirEntryInfo>,
    result: Seq<BasicDirEntryInfo>,
)
    requires
        excludes_names(observations, live_names),
        forall|j: int|
            0 <= j < result.len() ==> exists|i: int|
                0 <= i < observations.len() && entry_matches(
                    #[trigger] result[j],
                    observations[i],
                ),
    ensures
        excludes_names(result, live_names),
{
    assert forall|j: int| 0 <= j < result.len() implies !name_listed(
        live_names,
        (#[trigger] result[j]).file_name@,
    ) by {
        let i = choose|i: int|
            0 <= i < observations.len() && entry_matches(result[j], observations[i]);
        assert(!name_listed(live_names, observations[i].file_name@));
    }
}

} // verus!
