use vstd::prelude::*;

use crate::path_rep::FsPath;

verus! {

/// What kind of object a path names on disk.
#[derive(Debug, Clone, Copy, PartialEq, Eq, Structural)]
pub enum FileKind {
    File,
    Directory,
    Symlink,
    Other,
    Unknown,
}

/// The metadata the engine reads from one successful stat: the modify time
/// in nanoseconds since the epoch, the length in bytes, and the file kind.
#[derive(Debug, Clone, Copy, PartialEq, Eq, Structural)]
pub struct PathMetadata {
    pub mtime: u64,
    pub size: u64,
    pub file_kind: FileKind,
}

/// A path together with what was observed about it.  A record whose
/// metadata is absent is a phantom: the path does not currently exist, or
/// could not be read.  Phantoms are kept because callers may ask about
/// historical versions of files that are now gone; comparisons must test
/// the presence of the metadata, never sentinel values.
#[derive(Debug)]
pub struct PathData {
    pub path_buf: FsPath,
    pub metadata: Option<PathMetadata>,
}

impl Clone for PathData {
    fn clone(&self) -> (r: Self)
        ensures
            r.path_buf@ == self.path_buf@,
            r.metadata == self.metadata,
    {
        PathData { path_buf: self.path_buf.clone(), metadata: self.metadata }
    }
}

impl PathData {
    pub open spec fn is_phantom(&self) -> bool {
        self.metadata is None
    }

    pub fn new(path_buf: FsPath, metadata: Option<PathMetadata>) -> (r: PathData)
        ensures
            r.path_buf@ == path_buf@,
            r.metadata == metadata,
    {
        PathData { path_buf, metadata }
    }

    pub fn phantom(&self) -> (r: bool)
        ensures
            r == self.is_phantom(),
    {
        self.metadata.is_none()
    }

    /// The metadata, or the phantom sentinel (epoch, zero length) where it
    /// is absent.  The sentinel exists only so the display layer can pad
    /// columns; the engine itself always tests the presence flag.
    pub fn md_infallible(&self) -> (r: PathMetadata)
        ensures
            self.metadata is Some ==> r == self.metadata->Some_0,
            self.metadata is None ==> r == (PathMetadata {
                mtime: 0u64,
                size: 0u64,
                file_kind: FileKind::Unknown,
            }),
    {
        match self.metadata {
            Some(md) => md,
            None => PathMetadata { mtime: 0, size: 0, file_kind: FileKind::Unknown },
        }
    }
}

/// `a` holds, record for record, the same paths and metadata as `b`.
pub open spec fn records_match(a: Seq<PathData>, b: Seq<PathData>) -> bool {
    &&& a.len() == b.len()
    &&& forall|j: int|
        0 <= j < a.len() ==> (#[trigger] a[j]).path_buf@ == b[j].path_buf@ && a[j].metadata
            == b[j].metadata
}

/// A fresh vector of records equal, record for record, to the given one.
pub fn copy_records(v: &Vec<PathData>) -> (r: Vec<PathData>)
    ensures
        records_match(r@, v@),
{
    let mut r: Vec<PathData> = Vec::new();
    let mut i: usize = 0;
    while i < v.len()
        invariant
            i <= v@.len(),
            r@.len() == i,
            forall|j: int|
                0 <= j < i ==> (#[trigger] r@[j]).path_buf@ == v@[j].path_buf@ && r@[j].metadata
                    == v@[j].metadata,
        decreases v@.len() - i,
    {
        r.push(v[i].clone());
        i = i + 1;
    }
    r
}

/// One directory entry, as a directory listing hands it out: the bare file
/// name, the full path, and the kind when the listing could supply one.
#[derive(Debug)]
pub struct BasicDirEntryInfo {
    pub file_name: String,
    pub path: FsPath,
    pub file_type: Option<FileKind>,
}

impl Clone for BasicDirEntryInfo {
    fn clone(&self) -> (r: Self)
        ensures
            r.file_name@ == self.file_name@,
            r.path@ == self.path@,
            r.file_type == self.file_type,
    {
        BasicDirEntryInfo {
            file_name: self.file_name.clone(),
            path: self.path.clone(),
            file_type: self.file_type,
        }
    }
}

} // verus!
