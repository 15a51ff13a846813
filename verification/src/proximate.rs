use vstd::prelude::*;

use crate::errors::HttmError;
use crate::mounts::MountIndex;
use crate::path_rep::FsPath;
use crate::pathdata::PathData;

verus! {

/// The resolver memoises the answer for a file's parent directory, so a
/// walk over one directory resolves the mount table once.  The cache is
/// request-scoped and bounded; when full, the oldest entry leaves.
pub const PROXIMATE_CACHE_CAPACITY: usize = 30;

impl MountIndex {
    /// `m` is the proximate mount of `p`: a mount of the table, an ancestor
    /// of `p`, and no other mounted ancestor of `p` is longer.
    pub open spec fn is_proximate(&self, p: Seq<Seq<char>>, m: Seq<Seq<char>>) -> bool {
        &&& self.has_mount(m)
        &&& m.is_prefix_of(p)
        &&& forall|m2: Seq<Seq<char>>|
            #[trigger] self.has_mount(m2) && m2.is_prefix_of(p) ==> m2.len() <= m.len()
    }

    /// `p` has no mounted ancestor at all.
    pub open spec fn has_no_dataset(&self, p: Seq<Seq<char>>) -> bool {
        forall|m2: Seq<Seq<char>>| #[trigger] self.has_mount(m2) ==> !m2.is_prefix_of(p)
    }
}

/// The proximate mount of a path is unique: resolving the same path twice
/// gives equal results, whatever the cache held at either call.
pub proof fn lemma_proximate_unique(index: MountIndex, p: Seq<Seq<char>>, m1: Seq<Seq<char>>, m2: Seq<Seq<char>>)
    requires
        index.is_proximate(p, m1),
        index.is_proximate(p, m2),
    ensures
        m1 == m2,
{
    assert(m1.len() <= m2.len());
    assert(m2.len() <= m1.len());
    assert(m1 =~= p.subrange(0, m1.len() as int));
    assert(m2 =~= p.subrange(0, m2.len() as int));
}

/// The bounded memo of parent-directory resolutions.  Its invariant ties
/// every entry to the full computation, so a hit can never disagree with a
/// fresh scan.
#[derive(Debug)]
pub struct ProximateCache {
    pub entries: Vec<(FsPath, FsPath)>,
}

impl ProximateCache {
    /// Every cached value is the proximate mount of its key.
    pub open spec fn inv(&self, index: MountIndex) -> bool {
        forall|j: int|
            0 <= j < self.entries@.len() ==> index.is_proximate(
                #[trigger] self.entries@[j].0@,
                self.entries@[j].1@,
            )
    }

    pub fn new() -> (r: ProximateCache)
        ensures
            forall|index: MountIndex| r.inv(index),
    {
        ProximateCache { entries: Vec::new() }
    }

    fn get(&self, key: &FsPath) -> (r: Option<&FsPath>)
        ensures
            match r {
                Some(v) => exists|j: int|
                    0 <= j < self.entries@.len() && (#[trigger] self.entries@[j]).0@ == key@
                        && self.entries@[j].1@ == v@,
                None => true,
            },
    {
        let mut i: usize = 0;
        while i < self.entries.len()
            invariant
                i <= self.entries@.len(),
            decreases self.entries@.len() - i,
        {
            if self.entries[i].0.is_same(key) {
                return Some(&self.entries[i].1);
            }
            i = i + 1;
        }
        None
    }

    fn insert(&mut self, index: &MountIndex, key: FsPath, value: FsPath)
        requires
            old(self).inv(*index),
            index.is_proximate(key@, value@),
        ensures
            final(self).inv(*index),
    {
        if self.entries.len() >= PROXIMATE_CACHE_CAPACITY {
            self.entries.remove(0);
        }
        self.entries.push((key, value));
    }
}

/// A full scan: the longest ancestor of `p` that is a key of the mount
/// table, from `p` itself upward.  Ancestors are visited longest first, so
/// the first hit needs no length comparison.
fn scan_longest_mount(index: &MountIndex, p: &FsPath) -> (r: Option<FsPath>)
    requires
        index.wf(),
    ensures
        match r {
            Some(m) => index.is_proximate(p@, m@),
            None => index.has_no_dataset(p@),
        },
{
    let mut k: usize = p.len();
    loop
        invariant
            index.wf(),
            k <= p@.len(),
            forall|m2: Seq<Seq<char>>|
                #[trigger] index.has_mount(m2) && m2.is_prefix_of(p@) ==> m2.len() <= k,
        decreases k,
    {
        let pre = p.prefix_path(k);
        if index.contains_mount(&pre) {
            proof {
                assert(pre@.is_prefix_of(p@));
            }
            return Some(pre);
        }
        proof {
            assert forall|m2: Seq<Seq<char>>|
                #[trigger] index.has_mount(m2) && m2.is_prefix_of(p@) implies m2.len() <= k - 1 by {
                if m2.len() == k {
                    assert(m2 =~= pre@);
                }
            }
        }
        if k == 0 {
            proof {
                assert forall|m2: Seq<Seq<char>>| #[trigger] index.has_mount(m2) implies
                    !m2.is_prefix_of(p@) by {}
            }
            return None;
        }
        k = k - 1;
    }
}

/// The mount point in the table that is the longest ancestor of the input
/// path, or `NoDataset` when no ancestor is mounted.  The parent
/// directory's resolution is memoised in `cache`; the cache invariant makes
/// a hit and a fresh scan indistinguishable.
pub fn get_proximate_dataset(
    pathdata: &PathData,
    index: &MountIndex,
    cache: &mut ProximateCache,
) -> (r: Result<FsPath, HttmError>)
    requires
        index.wf(),
        old(cache).inv(*index),
    ensures
        final(cache).inv(*index),
        match r {
            Ok(m) => index.is_proximate(pathdata.path_buf@, m@),
            Err(e) => e is NoDataset && index.has_no_dataset(pathdata.path_buf@),
        },
{
    let path = &pathdata.path_buf;

    // the path itself may be a mount point, and is then its own longest
    // mounted ancestor; the cache speaks only of the parent, so ask first
    if index.contains_mount(path) {
        let ghost m = path@;
        proof {
            assert(m.is_prefix_of(path@)) by {
                assert(m =~= path@.subrange(0, m.len() as int));
            }
        }
        return Ok(path.clone());
    }

    if path.len() == 0 {
        proof {
            assert forall|m2: Seq<Seq<char>>| #[trigger] index.has_mount(m2) implies
                !m2.is_prefix_of(path@) by {
                if m2.is_prefix_of(path@) {
                    assert(m2 =~= path@);
                }
            }
        }
        return Err(HttmError::NoDataset);
    }

    let parent = path.prefix_path(path.len() - 1);

    proof {
        // the path is not itself a mount, so its mounted ancestors are
        // exactly its parent's, and the two resolutions agree
        lemma_candidates_of_child(*index, path@, parent@);
    }

    if let Some(hit) = cache.get(&parent) {
        let r = hit.clone();
        return Ok(r);
    }

    match scan_longest_mount(index, &parent) {
        Some(m) => {
            let value = m.clone();
            cache.insert(index, parent, value);
            Ok(m)
        },
        None => Err(HttmError::NoDataset),
    }
}

/// For a path that is not itself a mount point, a mount is a proximate
/// mount of the path exactly when it is one of the path's parent; and the
/// path lacks mounted ancestors exactly when its parent does.
proof fn lemma_candidates_of_child(index: MountIndex, p: Seq<Seq<char>>, parent: Seq<Seq<char>>)
    requires
        p.len() > 0,
        parent == p.subrange(0, p.len() - 1),
        !index.has_mount(p),
    ensures
        forall|m: Seq<Seq<char>>|
            #[trigger] index.is_proximate(parent, m) == index.is_proximate(p, m),
        index.has_no_dataset(parent) == index.has_no_dataset(p),
{
    assert forall|m2: Seq<Seq<char>>| #[trigger]
        index.has_mount(m2) implies (m2.is_prefix_of(parent) == m2.is_prefix_of(p)) by {
        if m2.is_prefix_of(parent) {
            assert(m2 =~= p.subrange(0, m2.len() as int));
        }
        if m2.is_prefix_of(p) {
            if m2.len() == p.len() {
                assert(m2 =~= p);
            } else {
                assert(m2 =~= parent.subrange(0, m2.len() as int));
            }
        }
    }
    assert forall|m: Seq<Seq<char>>|
        #[trigger] index.is_proximate(parent, m) == index.is_proximate(p, m) by {
        if index.is_proximate(parent, m) {
            assert(index.has_mount(m) && m.is_prefix_of(parent));
            assert(m.is_prefix_of(p));
            assert forall|m2: Seq<Seq<char>>|
                #[trigger] index.has_mount(m2) && m2.is_prefix_of(p) implies m2.len() <= m.len() by {
                assert(m2.is_prefix_of(parent));
            }
        }
        if index.is_proximate(p, m) {
            assert(index.has_mount(m) && m.is_prefix_of(p));
            if m.len() == p.len() {
                assert(m =~= p);
            }
            assert(m.is_prefix_of(parent));
            assert forall|m2: Seq<Seq<char>>|
                #[trigger] index.has_mount(m2) && m2.is_prefix_of(parent) implies m2.len()
                    <= m.len() by {
                assert(m2.is_prefix_of(p));
            }
        }
    }
}

} // verus!
