//! Reading an archive back: its entries as the `zip` crate finds them.

use vstd::prelude::*;
use vstd::string::*;
use crate::container::{
    archive_file, archive_names, holds_entries, names_of, texts, zip_extract, zip_names,
};

verus! {

/// One entry of an archive: the path it is stored under and its content.
#[derive(Debug)]
pub struct ArchiveEntry {
    pub name: String,
    pub content: Vec<u8>,
}

impl View for ArchiveEntry {
    type V = (Seq<char>, Seq<u8>);

    open spec fn view(&self) -> (Seq<char>, Seq<u8>) {
        (self.name@, self.content@)
    }
}

/// The views of a vector of entries.
pub open spec fn entry_views(entries: Seq<ArchiveEntry>) -> Seq<(Seq<char>, Seq<u8>)> {
    Seq::new(entries.len(), |i: int| entries[i]@)
}

/// Every listed name can be extracted.
pub open spec fn all_readable(bytes: Seq<u8>, names: Seq<Seq<char>>) -> bool {
    forall|i: int| 0 <= i < names.len() ==> archive_file(bytes, #[trigger] names[i]) is Some
}

/// The entries of an archive, in the order of its directory, each with the
/// bytes that are extracted under its name. `None` where the bytes are no
/// archive, or where an entry that the archive lists cannot be extracted.
pub open spec fn archive_entries(bytes: Seq<u8>) -> Option<Seq<(Seq<char>, Seq<u8>)>> {
    match archive_names(bytes) {
        Some(names) => if all_readable(bytes, names) {
            Some(Seq::new(names.len(), |i: int| (names[i], archive_file(bytes, names[i])->0)))
        } else {
            None
        },
        None => None,
    }
}

/// An archive that holds `entries` reads back as exactly these entries.
pub proof fn lemma_holds_reads_back(bytes: Seq<u8>, entries: Seq<(Seq<char>, Seq<u8>)>)
    ensures
        holds_entries(bytes, entries) ==> archive_entries(bytes) == Some(entries),
{
    if holds_entries(bytes, entries) {
        let names = names_of(entries);
        assert forall|i: int| 0 <= i < names.len() implies archive_file(
            bytes,
            #[trigger] names[i],
        ) is Some by {
            assert(names[i] == entries[i].0);
        }
        let read = archive_entries(bytes)->0;
        assert forall|i: int| 0 <= i < entries.len() implies read[i] == entries[i] by {
            assert(names[i] == entries[i].0);
        }
        assert(read =~= entries);
    }
}

/// The names of the entries of an archive, in the order of its directory.
pub fn entry_names(bytes: &[u8]) -> (res: Option<Vec<String>>)
    ensures
        match res {
            Some(names) => archive_names(bytes@) == Some(texts(names@)),
            None => archive_names(bytes@) is None,
        },
{
    zip_names(bytes)
}

/// The content stored in an archive under `name`.
pub fn extract(bytes: &[u8], name: &str) -> (res: Option<Vec<u8>>)
    ensures
        match res {
            Some(content) => archive_file(bytes@, name@) == Some(content@),
            None => archive_file(bytes@, name@) is None,
        },
{
    zip_extract(bytes, name)
}

/// All entries of an archive, each with its content.
pub fn read_archive(bytes: &[u8]) -> (res: Option<Vec<ArchiveEntry>>)
    ensures
        match res {
            Some(entries) => archive_entries(bytes@) == Some(entry_views(entries@)),
            None => archive_entries(bytes@) is None,
        },
{
    let names = match zip_names(bytes) {
        Some(names) => names,
        None => { return None; },
    };
    let ghost listed = texts(names@);
    let total = names.len();
    let mut entries: Vec<ArchiveEntry> = Vec::new();
    let mut i: usize = 0;
    while i < total
        invariant
            i <= total,
            total == names@.len(),
            listed == texts(names@),
            archive_names(bytes@) == Some(listed),
            entries@.len() == i,
            forall|j: int|
                0 <= j < i ==> archive_file(bytes@, #[trigger] listed[j]) == Some(
                    entries@[j].content@,
                ) && entries@[j].name@ == listed[j],
        decreases total - i,
    {
        let name = names[i].clone();
        assert(name@ == listed[i as int]);
        match zip_extract(bytes, name.as_str()) {
            Some(content) => {
                entries.push(ArchiveEntry { name, content });
            },
            None => {
                assert(!all_readable(bytes@, listed));
                return None;
            },
        }
        i = i + 1;
    }
    proof {
        assert(all_readable(bytes@, listed));
        assert(entry_views(entries@) =~= archive_entries(bytes@)->0);
    }
    Some(entries)
}

} // verus!
