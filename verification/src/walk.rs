//! What a walk over the project directory yields, and the rules that decide
//! which of it belongs in the archive.

use vstd::prelude::*;
use crate::path::{extension_of, source_extension, EntryPath, is_source_extension};

verus! {

/// No file larger than this many bytes (1 MiB) is archived.
pub const MAX_FILE_SIZE: u64 = 1048576;

/// The name of the build-output directory, which is never archived.
pub open spec fn build_directory() -> Seq<char> {
    seq!['t', 'a', 'r', 'g', 'e', 't']
}

/// What kind of thing a path leads to.
#[derive(Clone, Copy, Debug, PartialEq, Eq, Structural)]
pub enum EntryKind {
    Directory,
    File,
    /// Neither a directory nor a regular file.
    Other,
}

/// One entry that the walk reached.
pub struct WalkEntry {
    /// The entry's path, in the same form as the workspace root's.
    pub path: EntryPath,
    pub kind: EntryKind,
    /// The size in bytes that the file system reports for the entry.
    pub size: u64,
}

/// What reading an entry's content gave.
pub enum Loaded {
    Bytes(Vec<u8>),
    /// Reading failed; the text says why.
    Failed(String),
    /// Nobody read the entry.
    Absent,
}

/// One step of the walk.
pub enum WalkItem {
    /// An entry, with its content where it was read.
    Entry { entry: WalkEntry, content: Loaded },
    /// The walk could not reach or examine an entry; the text says why.
    Failed { cause: String },
}

/// The walk goes down into every directory, whatever its name.
pub open spec fn descends(entry: WalkEntry) -> bool {
    entry.kind == EntryKind::Directory
}

/// A regular file is included only for an extension from the list.
pub open spec fn includes(entry: WalkEntry) -> bool {
    &&& entry.kind == EntryKind::File
    &&& entry.path@.len() > 0
    &&& extension_of(entry.path@.last()) matches Some(ext)
    &&& source_extension(ext)
}

/// What the walk yields at all: directories, to go down into them, and the
/// files that are included.
pub open spec fn valid_path(entry: WalkEntry) -> bool {
    descends(entry) || includes(entry)
}

/// An entry other than a directory that is larger than the limit.
pub open spec fn oversized(entry: WalkEntry) -> bool {
    entry.kind != EntryKind::Directory && entry.size > MAX_FILE_SIZE
}

/// The path under which an entry is archived, relative to `root`; `None`
/// where the rules leave the entry out. An entry is archived if it is an
/// included file within the size limit that lies strictly below `root` and
/// not in the build directory directly below `root`.
pub open spec fn archived_as(root: Seq<Seq<char>>, entry: WalkEntry) -> Option<Seq<Seq<char>>> {
    let below = entry.path@.skip(root.len() as int);
    if includes(entry) && !oversized(entry) && root.is_prefix_of(entry.path@) && below.len() > 0
        && below[0] != build_directory() {
        Some(below)
    } else {
        None
    }
}

/// Whether the walk goes down into the entry.
pub fn should_descend(entry: &WalkEntry) -> (res: bool)
    ensures
        res == descends(*entry),
{
    entry.kind == EntryKind::Directory
}

/// Whether the entry is a file that the archive takes by its extension.
pub fn should_include(entry: &WalkEntry) -> (res: bool)
    ensures
        res == includes(*entry),
{
    if entry.kind != EntryKind::File {
        return false;
    }
    match entry.path.extension() {
        Some(ext) => is_source_extension(ext.as_str()),
        None => false,
    }
}

/// The filter of the walk: whether an entry is yielded at all.
pub fn is_valid_path(entry: &WalkEntry) -> (res: bool)
    ensures
        res == valid_path(*entry),
{
    should_descend(entry) || should_include(entry)
}

/// Whether the entry is left out for its size.
pub fn exceeds_size_limit(entry: &WalkEntry) -> (res: bool)
    ensures
        res == oversized(*entry),
{
    entry.kind != EntryKind::Directory && entry.size > MAX_FILE_SIZE
}

/// The path under which `entry` is archived, relative to `root`, or `None`
/// where the rules leave it out.
pub fn archive_path(root: &EntryPath, entry: &WalkEntry) -> (res: Option<EntryPath>)
    ensures
        match res {
            Some(below) => archived_as(root@, *entry) == Some(below@),
            None => archived_as(root@, *entry) is None,
        },
{
    if !should_include(entry) || exceeds_size_limit(entry) {
        return None;
    }
    match entry.path.strip_prefix(root) {
        Some(below) => {
            proof {
                reveal_strlit("target");
                assert("target"@ =~= build_directory());
            }
            if below.len() == 0 || below.starts_with("target") {
                None
            } else {
                Some(below)
            }
        },
        None => None,
    }
}

} // verus!
