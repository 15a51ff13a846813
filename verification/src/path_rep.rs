use vstd::prelude::*;

verus! {

/// An absolute filesystem path, held as its components in order, from the
/// root downward.  The filesystem root itself is the empty component list,
/// so `/home/alice` is `["home", "alice"]`.  Component-wise storage makes
/// ancestor and prefix questions exact: no separator parsing is ever needed.
#[derive(Debug)]
pub struct FsPath {
    pub components: Vec<String>,
}

impl View for FsPath {
    type V = Seq<Seq<char>>;

    open spec fn view(&self) -> Seq<Seq<char>> {
        self.components.deep_view()
    }
}

impl DeepView for FsPath {
    type V = Seq<Seq<char>>;

    open spec fn deep_view(&self) -> Seq<Seq<char>> {
        self.view()
    }
}

/// The byte length of a path as rendered: each component's UTF-8 byte
/// count, plus one separator byte per component.
pub open spec fn path_byte_len(p: Seq<Seq<char>>) -> int
    decreases p.len(),
{
    if p.len() == 0 {
        0
    } else {
        path_byte_len(p.drop_last()) + vstd::utf8::encode_utf8(p.last()).len() + 1
    }
}

/// A fresh vector holding the same component strings.
fn copy_components(v: &Vec<String>) -> (r: Vec<String>)
    ensures
        r@ == v@,
        r.deep_view() == v.deep_view(),
{
    let mut r: Vec<String> = Vec::new();
    let mut i: usize = 0;
    while i < v.len()
        invariant
            i <= v.len(),
            r@.len() == i,
            forall|j: int| 0 <= j < i ==> r@[j] == v@[j],
        decreases v.len() - i,
    {
        r.push(v[i].clone());
        i = i + 1;
    }
    proof {
        assert(r@ =~= v@);
        assert(r.deep_view() =~= v.deep_view());
    }
    r
}

/// No two paths in `s` view alike.
pub open spec fn distinct_paths(s: Seq<FsPath>) -> bool {
    forall|j1: int, j2: int|
        0 <= j1 < j2 < s.len() ==> (#[trigger] s[j1])@ != (#[trigger] s[j2])@
}

/// Some path in `s` views as `m`.
pub open spec fn seq_has_path(s: Seq<FsPath>, m: Seq<Seq<char>>) -> bool {
    exists|j: int| 0 <= j < s.len() && (#[trigger] s[j])@ == m
}

/// A fresh vector of paths equal, path for path, to the given one.
pub fn copy_paths(v: &Vec<FsPath>) -> (r: Vec<FsPath>)
    ensures
        r.deep_view() == v.deep_view(),
{
    let mut r: Vec<FsPath> = Vec::new();
    let mut i: usize = 0;
    while i < v.len()
        invariant
            i <= v.len(),
            r@.len() == i,
            forall|j: int| 0 <= j < i ==> r@[j]@ == #[trigger] v@[j]@,
        decreases v.len() - i,
    {
        r.push(v[i].clone());
        i = i + 1;
    }
    proof {
        assert(r.deep_view() =~= v.deep_view());
    }
    r
}

impl Clone for FsPath {
    fn clone(&self) -> (r: Self)
        ensures
            r@ == self@,
    {
        FsPath { components: copy_components(&self.components) }
    }
}

impl FsPath {
    pub fn len(&self) -> (r: usize)
        ensures
            r == self@.len(),
    {
        self.components.len()
    }

    /// Component-wise equality of two paths.
    pub fn is_same(&self, other: &FsPath) -> (r: bool)
        ensures
            r == (self@ == other@),
    {
        if self.components.len() != other.components.len() {
            proof {
                assert(self@.len() != other@.len());
            }
            return false;
        }
        let mut i: usize = 0;
        while i < self.components.len()
            invariant
                i <= self.components.len(),
                self.components.len() == other.components.len(),
                forall|j: int| 0 <= j < i ==> self@[j] == other@[j],
            decreases self.components.len() - i,
        {
            if !(self.components[i] == other.components[i]) {
                proof {
                    assert(self@[i as int] != other@[i as int]);
                }
                return false;
            }
            i = i + 1;
        }
        proof {
            assert(self@ =~= other@);
        }
        true
    }

    /// Does `prefix` name this path or one of its ancestors?
    pub fn starts_with(&self, prefix: &FsPath) -> (r: bool)
        ensures
            r == prefix@.is_prefix_of(self@),
    {
        if prefix.components.len() > self.components.len() {
            return false;
        }
        let mut i: usize = 0;
        while i < prefix.components.len()
            invariant
                i <= prefix.components.len(),
                prefix.components.len() <= self.components.len(),
                forall|j: int| 0 <= j < i ==> prefix@[j] == self@[j],
            decreases prefix.components.len() - i,
        {
            if !(prefix.components[i] == self.components[i]) {
                proof {
                    assert(prefix@[i as int] != self@.subrange(0, prefix@.len() as int)[i as int]);
                }
                return false;
            }
            i = i + 1;
        }
        proof {
            assert(prefix@ =~= self@.subrange(0, prefix@.len() as int));
        }
        true
    }

    /// The components of this path below `prefix`, when `prefix` is an
    /// ancestor of (or equal to) this path.
    pub fn strip_prefix(&self, prefix: &FsPath) -> (r: Option<FsPath>)
        ensures
            match r {
                Some(rel) => prefix@.is_prefix_of(self@) && rel@ == self@.skip(prefix@.len() as int),
                None => !prefix@.is_prefix_of(self@),
            },
    {
        if !self.starts_with(prefix) {
            return None;
        }
        let mut components: Vec<String> = Vec::new();
        let mut i: usize = prefix.components.len();
        while i < self.components.len()
            invariant
                prefix.components.len() <= i <= self.components.len(),
                components@.len() == i - prefix.components.len(),
                forall|j: int|
                    0 <= j < components@.len() ==> components@[j] == self.components@[j
                        + prefix.components.len()],
            decreases self.components.len() - i,
        {
            components.push(self.components[i].clone());
            i = i + 1;
        }
        proof {
            assert(components.deep_view() =~= self@.skip(prefix@.len() as int));
        }
        Some(FsPath { components })
    }

    /// This path extended by every component of `rel`, in order.
    pub fn join(&self, rel: &FsPath) -> (r: FsPath)
        ensures
            r@ == self@ + rel@,
    {
        let mut components: Vec<String> = copy_components(&self.components);
        let mut i: usize = 0;
        while i < rel.components.len()
            invariant
                i <= rel.components.len(),
                components@.len() == self.components@.len() + i,
                forall|j: int|
                    0 <= j < self.components@.len() ==> components@[j] == self.components@[j],
                forall|j: int|
                    0 <= j < i ==> components@[j + self.components@.len()] == rel.components@[j],
            decreases rel.components.len() - i,
        {
            components.push(rel.components[i].clone());
            i = i + 1;
        }
        proof {
            assert(components.deep_view() =~= self@ + rel@);
        }
        FsPath { components }
    }

    /// This path extended by one trailing component.
    pub fn join_component(&self, name: &str) -> (r: FsPath)
        ensures
            r@ == self@.push(name@),
    {
        let mut components: Vec<String> = copy_components(&self.components);
        components.push(name.to_owned());
        proof {
            assert(components.deep_view() =~= self@.push(name@));
        }
        FsPath { components }
    }

    /// The byte length of this path as rendered with separators: one `/`
    /// per component plus each component's UTF-8 byte count.
    pub fn byte_len(&self) -> (r: u128)
        ensures
            r == path_byte_len(self@),
    {
        let ghost unit: u128 = 0x1_0000_0000_0000_0000u128;
        let mut sum: u128 = 0;
        let mut i: usize = 0;
        proof {
            assert(self@.subrange(0, 0) =~= Seq::<Seq<char>>::empty());
        }
        while i < self.components.len()
            invariant
                i <= self.components@.len(),
                sum == path_byte_len(self@.subrange(0, i as int)),
                sum <= (i as u128) * unit,
                unit == 0x1_0000_0000_0000_0000u128,
            decreases self.components@.len() - i,
        {
            let l = self.components[i].as_str().as_bytes().len();
            proof {
                assert(l as u128 + 1 <= unit);
                assert(sum + l as u128 + 1 <= (i as u128 + 1) * unit) by (nonlinear_arith)
                    requires
                        sum <= (i as u128) * unit,
                        l as u128 + 1 <= unit,
                ;
                assert((i as u128 + 1) * unit < 0xffff_ffff_ffff_ffff_ffff_ffff_ffff_ffffu128)
                    by (nonlinear_arith)
                    requires
                        i as u128 + 1 <= 0xffff_ffff_ffff_ffffu128,
                        unit == 0x1_0000_0000_0000_0000u128,
                ;
            }
            sum = sum + (l as u128) + 1;
            proof {
                assert(self@[i as int] == self.components@[i as int]@);
                assert(self@.subrange(0, i + 1).drop_last() =~= self@.subrange(0, i as int));
                assert(self@.subrange(0, i + 1).last() == self@[i as int]);
                assert(path_byte_len(self@.subrange(0, i + 1)) == path_byte_len(
                    self@.subrange(0, i as int),
                ) + vstd::utf8::encode_utf8(self@[i as int]).len() + 1);
            }
            i = i + 1;
        }
        proof {
            assert(self@.subrange(0, self.components@.len() as int) =~= self@);
        }
        sum
    }

    /// The ancestor holding only the first `n` components.
    pub fn prefix_path(&self, n: usize) -> (r: FsPath)
        requires
            n <= self@.len(),
        ensures
            r@ == self@.subrange(0, n as int),
    {
        let mut components: Vec<String> = Vec::new();
        let mut i: usize = 0;
        while i < n
            invariant
                i <= n <= self.components.len(),
                components@.len() == i,
                forall|j: int| 0 <= j < i ==> components@[j] == self.components@[j],
            decreases n - i,
        {
            components.push(self.components[i].clone());
            i = i + 1;
        }
        proof {
            assert(components.deep_view() =~= self@.subrange(0, n as int));
        }
        FsPath { components }
    }
}

} // verus!
