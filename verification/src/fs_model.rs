//! In-memory model of a directory subtree: what a filesystem walk hands the
//! search engine and the index builder. Each entry carries the attributes
//! the exclusion policy reads; a directory entry carries its own listing,
//! or `readable == false` when listing it failed.

use vstd::prelude::*;

verus! {

/// Read-only attribute bit, as reported by the host filesystem.
pub const FILE_ATTRIBUTE_READONLY: u32 = 1;

/// Hidden attribute bit, as reported by the host filesystem.
pub const FILE_ATTRIBUTE_HIDDEN: u32 = 2;

/// The kind of one filesystem entry.
#[derive(Clone, Copy, PartialEq, Eq, Debug, Structural)]
pub enum EntryKind {
    File,
    Directory,
    Symlink,
    Other,
}

/// One filesystem entry, with its subtree when it is a directory.
///
/// `size` is meaningless for directories; `modified` is a Unix timestamp in
/// seconds; `entries` is the directory's listing and `readable` records
/// whether that listing could be obtained at all.
pub struct FsEntry {
    pub name: String,
    pub kind: EntryKind,
    pub size: u64,
    pub modified: i64,
    pub attributes: u32,
    pub readable: bool,
    pub entries: Vec<FsEntry>,
}

impl FsEntry {
    /// A plain file entry.
    pub fn file(name: String, size: u64, modified: i64) -> (r: FsEntry)
        ensures
            r.name == name,
            r.kind == EntryKind::File,
            r.size == size,
            r.modified == modified,
            r.attributes == 0u32,
            r.readable,
            r.entries@ == Seq::<FsEntry>::empty(),
    {
        FsEntry {
            name,
            kind: EntryKind::File,
            size,
            modified,
            attributes: 0,
            readable: true,
            entries: Vec::new(),
        }
    }

    /// A readable directory entry with the given listing.
    pub fn directory(name: String, entries: Vec<FsEntry>) -> (r: FsEntry)
        ensures
            r.name == name,
            r.kind == EntryKind::Directory,
            r.size == 0u64,
            r.modified == 0i64,
            r.attributes == 0u32,
            r.readable,
            r.entries == entries,
    {
        FsEntry {
            name,
            kind: EntryKind::Directory,
            size: 0,
            modified: 0,
            attributes: 0,
            readable: true,
            entries,
        }
    }

    /// The same entry with different attribute bits.
    pub fn with_attributes(self, attributes: u32) -> (r: FsEntry)
        ensures
            r == (FsEntry { attributes, ..self }),
    {
        FsEntry { attributes, ..self }
    }
}

} // verus!
