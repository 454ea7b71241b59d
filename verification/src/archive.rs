//! Building the archive: which entries of a walk are stored, under which
//! names, and what becomes of the others.

use vstd::prelude::*;
use vstd::string::*;
use crate::container::{
    accepts, archive_file, archive_names, closes, holds_entries, names_of, takes, written,
    zip_abort_file, zip_finish, zip_is_writing, zip_new, zip_start_file, zip_write_all,
    Container, MAX_NAME_BYTES,
};
use crate::path::{
    joined, lemma_plain_names_slash_free, lemma_segments_of_joined, plain_names, segments,
    EntryPath,
};
use crate::text::{decimal, push_decimal};
use crate::reader::{archive_entries, lemma_holds_reads_back};
use crate::walk::{
    archive_path, archived_as, build_directory, includes, EntryKind, Loaded, WalkItem,
    MAX_FILE_SIZE,
};

verus! {

/// Why a file that was offered to the archive is not in it.
#[derive(Debug)]
pub enum StoreError {
    /// The name is longer than the format's headers can hold.
    NameTooLong,
    /// The archive did not accept a new entry under the name.
    Refused(zip::result::ZipError),
    /// The entry was started, but its bytes could not be written; the entry
    /// was taken out again.
    WriteFailed(std::io::Error),
}

/// Why an item of the walk gave a warning instead of an entry.
#[derive(Debug)]
pub enum Cause {
    /// The walk itself failed on the item.
    Traversal(String),
    /// A component of the path below the root is no plain name.
    UnfitName,
    /// The file could not be read.
    Unreadable(String),
    /// The file was never read.
    Unread,
    /// The archive did not take the file.
    Store(StoreError),
}

/// What became of one item of the walk.
#[derive(Debug)]
pub enum Fate {
    /// The rules leave the item out; nothing is reported.
    Skipped,
    /// The item is an entry of the archive.
    Stored,
    /// The item was meant for the archive, but is not in it.
    Warned(Cause),
}

/// A finished archive.
#[derive(Debug)]
pub struct Archive {
    /// The archive itself, in ZIP format.
    pub bytes: Vec<u8>,
    /// The number of files stored in it.
    pub file_count: usize,
    /// What became of each item of the walk, in the walk's order.
    pub fates: Vec<Fate>,
}

/// The archive could not be finished.
#[derive(Debug)]
pub struct ArchiveError {
    pub cause: zip::result::ZipError,
    /// What had become of each item of the walk before the failure.
    pub fates: Vec<Fate>,
}

/// What to do with one item of the walk.
pub enum Verdict {
    /// Nothing is offered to the archive; the item's fate is decided.
    Settled(Fate),
    /// The item's content is offered to the archive under `name`.
    Offer { name: String },
}

/// The item is a file that the rules select, whose path below the root
/// consists of plain names, and whose content is at hand.
pub open spec fn offerable(root: Seq<Seq<char>>, item: WalkItem) -> bool {
    &&& item matches WalkItem::Entry { entry, content }
    &&& archived_as(root, entry) matches Some(below)
    &&& plain_names(below)
    &&& content is Bytes
}

/// The entry that an offerable item makes: its path below the root, joined
/// by `/`, and its content.
pub open spec fn offer(root: Seq<Seq<char>>, item: WalkItem) -> (Seq<char>, Seq<u8>) {
    match item {
        WalkItem::Entry { entry, content } => (
            joined(entry.path@.skip(root.len() as int)),
            match content {
                Loaded::Bytes(bytes) => bytes@,
                _ => Seq::empty(),
            },
        ),
        WalkItem::Failed { .. } => (Seq::empty(), Seq::empty()),
    }
}

/// Whether a name fits into the format's headers.
pub open spec fn fits_header(name: Seq<char>) -> bool {
    vstd::utf8::encode_utf8(name).len() <= MAX_NAME_BYTES
}

/// Whether an archive that holds `entries` gets one more entry, `name` with
/// `content`: the name fits, the archive accepts an entry under it, and it
/// takes the content.
pub open spec fn stores(
    entries: Seq<(Seq<char>, Seq<u8>)>,
    name: Seq<char>,
    content: Seq<u8>,
) -> bool {
    &&& fits_header(name)
    &&& accepts(entries, name)
    &&& takes(entries.push((name, Seq::<u8>::empty())), content)
}

/// The entries of the archive after a walk: each offerable item's offer,
/// in the order of the walk, as far as the archive stores it.
pub open spec fn planned_entries(root: Seq<Seq<char>>, items: Seq<WalkItem>) -> Seq<
    (Seq<char>, Seq<u8>),
>
    decreases items.len(),
{
    if items.len() == 0 {
        Seq::empty()
    } else {
        let before = planned_entries(root, items.drop_last());
        let offered = offer(root, items.last());
        if offerable(root, items.last()) && stores(before, offered.0, offered.1) {
            before.push(offered)
        } else {
            before
        }
    }
}

/// The fate that the rules fix for an item that is not offerable: skipped
/// where they do not select it, and warned about otherwise.
pub open spec fn settled_fits(root: Seq<Seq<char>>, item: WalkItem, fate: Fate) -> bool {
    match item {
        WalkItem::Failed { cause } => fate matches Fate::Warned(Cause::Traversal(text)) && text@
            == cause@,
        WalkItem::Entry { entry, content } => match archived_as(root, entry) {
            None => fate is Skipped,
            Some(below) => if !plain_names(below) {
                fate matches Fate::Warned(Cause::UnfitName)
            } else {
                match content {
                    Loaded::Failed(why) => fate matches Fate::Warned(Cause::Unreadable(text))
                        && text@ == why@,
                    Loaded::Absent => fate matches Fate::Warned(Cause::Unread),
                    Loaded::Bytes(_) => false,
                }
            },
        },
    }
}

/// The fate of `item`, when it is met with `before` in the archive.
///
/// The rules alone fix the fate of an item that is not offerable. An
/// offerable item is stored if the archive stores its offer; if not, the
/// warning says at which step the archive did not.
pub open spec fn fate_fits(
    root: Seq<Seq<char>>,
    before: Seq<(Seq<char>, Seq<u8>)>,
    item: WalkItem,
    fate: Fate,
) -> bool {
    if offerable(root, item) {
        store_fits(before, offer(root, item).0, offer(root, item).1, fate)
    } else {
        settled_fits(root, item, fate)
    }
}

/// The fate of content that is offered under `name` to an archive that
/// holds `before`.
pub open spec fn store_fits(
    before: Seq<(Seq<char>, Seq<u8>)>,
    name: Seq<char>,
    content: Seq<u8>,
    fate: Fate,
) -> bool {
    if !fits_header(name) {
        fate matches Fate::Warned(Cause::Store(StoreError::NameTooLong))
    } else if !accepts(before, name) {
        fate matches Fate::Warned(Cause::Store(StoreError::Refused(_)))
    } else if !takes(before.push((name, Seq::<u8>::empty())), content) {
        fate matches Fate::Warned(Cause::Store(StoreError::WriteFailed(_)))
    } else {
        fate is Stored
    }
}

/// The first `count` items have their fates, each the one that fits the
/// item and the entries that the items before it left in the archive.
pub open spec fn accounted_to(
    root: Seq<Seq<char>>,
    items: Seq<WalkItem>,
    fates: Seq<Fate>,
    count: int,
) -> bool {
    &&& 0 <= count <= items.len()
    &&& fates.len() == count
    &&& forall|i: int|
        0 <= i < count ==> fate_fits(
            root,
            planned_entries(root, items.take(i)),
            items[i],
            #[trigger] fates[i],
        )
}

/// Every item has its fate.
pub open spec fn accounted(root: Seq<Seq<char>>, items: Seq<WalkItem>, fates: Seq<Fate>) -> bool {
    accounted_to(root, items, fates, items.len() as int)
}

/// No two entries have the same name.
pub open spec fn distinct_names(entries: Seq<(Seq<char>, Seq<u8>)>) -> bool {
    forall|i: int, j: int|
        0 <= i < j < entries.len() ==> (#[trigger] entries[i]).0 != (#[trigger] entries[j]).0
}

/// What the archive of a walk `items` below `root` is: every item has its
/// fate, the archive holds exactly the planned entries, each under a name
/// of its own, and the count is their number.
pub open spec fn built_from(archive: Archive, root: Seq<Seq<char>>, items: Seq<WalkItem>) -> bool {
    &&& accounted(root, items, archive.fates@)
    &&& holds_entries(archive.bytes@, planned_entries(root, items))
    &&& distinct_names(planned_entries(root, items))
    &&& archive.file_count == planned_entries(root, items).len()
}

/// An archive that is being filled.
pub struct ArchiveWriter {
    container: Container,
}

impl ArchiveWriter {
    /// The entries written so far, each with its name and content.
    pub closed spec fn entries(&self) -> Seq<(Seq<char>, Seq<u8>)> {
        written(self.container)
    }

    /// An archive without entries.
    pub fn new() -> (writer: ArchiveWriter)
        ensures
            writer.entries() == Seq::<(Seq<char>, Seq<u8>)>::empty(),
    {
        ArchiveWriter { container: zip_new() }
    }

    /// Closes the archive and hands out its bytes. Where this succeeds,
    /// the bytes hold the entries written.
    pub fn finish(self) -> (res: Result<Vec<u8>, zip::result::ZipError>)
        ensures
            res is Ok <==> closes(self.entries()),
            res matches Ok(bytes) ==> holds_entries(bytes@, self.entries()),
    {
        zip_finish(self.container)
    }
}

/// Stores `content` in the archive as a deflate-compressed entry named
/// `name`.
///
/// On success the archive has this one entry more, with exactly these
/// bytes, and had none of that name before. On any failure it has the
/// entries that it had before: an entry that was started and could not be
/// written is taken out again. A name of more than `MAX_NAME_BYTES` bytes is
/// never handed to the archive. The error says at which step the archive
/// did not store the file.
pub fn write_file_to_zip(writer: &mut ArchiveWriter, name: &str, content: &[u8]) -> (res: Result<
    (),
    StoreError,
>)
    ensures
        res is Ok <==> stores(old(writer).entries(), name@, content@),
        res is Ok ==> final(writer).entries() == old(writer).entries().push((name@, content@))
            && !names_of(old(writer).entries()).contains(name@),
        res is Err ==> final(writer).entries() == old(writer).entries(),
        store_fits(old(writer).entries(), name@, content@, outcome_fate(res)),
{
    if name.as_bytes().len() > MAX_NAME_BYTES {
        return Err(StoreError::NameTooLong);
    }
    match zip_start_file(&mut writer.container, name) {
        Err(refusal) => Err(StoreError::Refused(refusal)),
        Ok(()) => {
            let ghost started = written(writer.container);
            assert(started.drop_last() =~= old(writer).entries());
            match zip_write_all(&mut writer.container, content) {
                Ok(()) => {
                    assert(Seq::<u8>::empty() + content@ =~= content@);
                    Ok(())
                },
                Err(failure) => {
                    if zip_is_writing(&writer.container) {
                        let _ = zip_abort_file(&mut writer.container);
                    }
                    Err(StoreError::WriteFailed(failure))
                },
            }
        },
    }
}

/// The fate of an item whose content was offered to the archive: stored,
/// or warned about with the reason why it is not.
pub open spec fn outcome_fate(stored: Result<(), StoreError>) -> Fate {
    match stored {
        Ok(_) => Fate::Stored,
        Err(error) => Fate::Warned(Cause::Store(error)),
    }
}

/// The fate of an item whose content was offered to the archive.
pub fn fate_of(stored: Result<(), StoreError>) -> (fate: Fate)
    ensures
        fate == outcome_fate(stored),
{
    match stored {
        Ok(()) => Fate::Stored,
        Err(error) => Fate::Warned(Cause::Store(error)),
    }
}

/// Decides what to do with one item of the walk below `root`.
///
/// An offerable item is offered under its path below the root, joined by
/// `/`. Every other item has its fate settled here: left out silently
/// where the rules do not select it, and with a warning otherwise.
pub fn classify(root: &EntryPath, item: &WalkItem) -> (res: Verdict)
    ensures
        match res {
            Verdict::Offer { name } => offerable(root@, *item) && name@ == offer(root@, *item).0,
            Verdict::Settled(fate) => !offerable(root@, *item) && settled_fits(
                root@,
                *item,
                fate,
            ),
        },
{
    match item {
        WalkItem::Failed { cause } => Verdict::Settled(Fate::Warned(Cause::Traversal(cause.clone()))),
        WalkItem::Entry { entry, content } => {
            match archive_path(root, entry) {
                None => Verdict::Settled(Fate::Skipped),
                Some(below) => {
                    if !below.is_plain() {
                        return Verdict::Settled(Fate::Warned(Cause::UnfitName));
                    }
                    match content {
                        Loaded::Failed(why) => Verdict::Settled(
                            Fate::Warned(Cause::Unreadable(why.clone())),
                        ),
                        Loaded::Absent => Verdict::Settled(Fate::Warned(Cause::Unread)),
                        Loaded::Bytes(_) => Verdict::Offer { name: below.archive_name() },
                    }
                },
            }
        },
    }
}

/// Closes the account of a walk: with the bytes of the finished archive it
/// is an `Archive`, and without them the error that ends the run.
pub fn seal(
    finished: Result<Vec<u8>, zip::result::ZipError>,
    file_count: usize,
    fates: Vec<Fate>,
) -> (res: Result<Archive, ArchiveError>)
    ensures
        match finished {
            Ok(bytes) => res matches Ok(archive) && archive.bytes == bytes && archive.file_count
                == file_count && archive.fates == fates,
            Err(cause) => res matches Err(error) && error.cause == cause && error.fates == fates,
        },
{
    match finished {
        Ok(bytes) => Ok(Archive { bytes, file_count, fates }),
        Err(cause) => Err(ArchiveError { cause, fates }),
    }
}

/// The content of an item that carries one.
fn offered_bytes(item: &WalkItem) -> (bytes: &[u8])
    requires
        item matches WalkItem::Entry { content, .. } && content is Bytes,
    ensures
        item matches WalkItem::Entry { content: Loaded::Bytes(held), .. } && bytes@ == held@,
{
    match item {
        WalkItem::Entry { content: Loaded::Bytes(held), .. } => held.as_slice(),
        _ => &[],
    }
}

/// Builds the archive of the workspace whose manifest stands at
/// `manifest_path`, from what a walk over the workspace yielded.
///
/// The workspace root is the directory of the manifest. Every item of the
/// walk gets its fate, the archive holds the planned entries in the order
/// of the walk, and no problem with a single item stops the others. Only
/// closing the archive can fail as a whole.
pub fn compress_workspace(manifest_path: &EntryPath, items: &Vec<WalkItem>) -> (res: Result<
    Archive,
    ArchiveError,
>)
    requires
        manifest_path@.len() > 0,
    ensures
        res is Ok <==> closes(planned_entries(manifest_path@.drop_last(), items@)),
        match res {
            Ok(archive) => built_from(archive, manifest_path@.drop_last(), items@),
            Err(error) => accounted(manifest_path@.drop_last(), items@, error.fates@),
        },
{
    let root = manifest_path.parent().unwrap();
    let mut writer = ArchiveWriter::new();
    let mut fates: Vec<Fate> = Vec::new();
    let mut file_count: usize = 0;
    let mut i: usize = 0;
    assert(items@.take(0) =~= Seq::<WalkItem>::empty());
    while i < items.len()
        invariant
            i <= items@.len(),
            root@ == manifest_path@.drop_last(),
            accounted_to(root@, items@, fates@, i as int),
            writer.entries() == planned_entries(root@, items@.take(i as int)),
            distinct_names(writer.entries()),
            file_count == writer.entries().len(),
            file_count <= i,
        decreases items@.len() - i,
    {
        let ghost before = writer.entries();
        proof {
            let longer = items@.take(i as int + 1);
            assert(longer.drop_last() =~= items@.take(i as int));
            assert(longer.last() == items@[i as int]);
        }
        let fate = match classify(&root, &items[i]) {
            Verdict::Settled(fate) => {
                assert(fate_fits(root@, before, items@[i as int], fate));
                fate
            },
            Verdict::Offer { name } => {
                let content = offered_bytes(&items[i]);
                let stored = write_file_to_zip(&mut writer, name.as_str(), content);
                proof {
                    if stored is Ok {
                        let after = writer.entries();
                        assert forall|a: int, b: int| 0 <= a < b < after.len() implies (
                        #[trigger] after[a]).0 != (#[trigger] after[b]).0 by {
                            if b == before.len() {
                                assert(names_of(before)[a] == before[a].0);
                            } else {
                                assert(after[a] == before[a] && after[b] == before[b]);
                            }
                        }
                    }
                }
                fate_of(stored)
            },
        };
        if let Fate::Stored = fate {
            file_count = file_count + 1;
        }
        proof {
            let extended = fates@.push(fate);
            assert forall|j: int| 0 <= j < i + 1 implies fate_fits(
                root@,
                planned_entries(root@, items@.take(j)),
                items@[j],
                #[trigger] extended[j],
            ) by {
                if j < i {
                    assert(extended[j] == fates@[j]);
                }
            }
        }
        fates.push(fate);
        i = i + 1;
    }
    assert(items@.take(i as int) =~= items@);
    seal(writer.finish(), file_count, fates)
}

/// The path of the manifest of the workspace at `workspace_root`: the file
/// `Cargo.toml` directly below it.
pub fn get_manifest_path(workspace_root: &EntryPath) -> (manifest: EntryPath)
    ensures
        manifest@ == workspace_root@.push(manifest_name()),
        manifest@.len() > 0,
        manifest@.drop_last() == workspace_root@,
{
    proof {
        reveal_strlit("Cargo.toml");
        assert("Cargo.toml"@ =~= manifest_name());
    }
    let manifest = workspace_root.join("Cargo.toml");
    assert(manifest@.drop_last() =~= workspace_root@);
    manifest
}

/// The file name of a workspace's manifest.
pub open spec fn manifest_name() -> Seq<char> {
    seq!['C', 'a', 'r', 'g', 'o', '.', 't', 'o', 'm', 'l']
}

/// The line that reports a finished archive: the number of files, with
/// `file` for exactly one and `files` otherwise, and the size in bytes.
pub open spec fn summary_text(file_count: nat, size: nat) -> Seq<char> {
    "Compressed "@ + decimal(file_count) + " file"@ + (if file_count == 1 {
        Seq::<char>::empty()
    } else {
        "s"@
    }) + ", total size: "@ + decimal(size) + "B"@
}

impl Archive {
    /// The line that reports this archive.
    pub fn summary(&self) -> (line: String)
        ensures
            line@ == summary_text(self.file_count as nat, self.bytes@.len()),
    {
        let mut line = String::from_str("Compressed ");
        push_decimal(&mut line, self.file_count as u64);
        line.append(" file");
        if self.file_count != 1 {
            line.append("s");
        }
        line.append(", total size: ");
        push_decimal(&mut line, self.bytes.len() as u64);
        line.append("B");
        proof {
            if self.file_count == 1 {
                assert("Compressed "@ + decimal(1) + " file"@ + Seq::<char>::empty() =~= "Compressed "@
                    + decimal(1) + " file"@);
            }
        }
        line
    }
}

/// The item at `index` is the one that the entry at `at` was made from: it
/// is offerable, the archive stored its offer on top of the entries planned
/// before it, and the offer is this entry.
pub open spec fn made_from(
    root: Seq<Seq<char>>,
    items: Seq<WalkItem>,
    at: int,
    index: int,
) -> bool {
    let before = planned_entries(root, items.take(index));
    let offered = offer(root, items[index]);
    &&& 0 <= index < items.len()
    &&& offerable(root, items[index])
    &&& stores(before, offered.0, offered.1)
    &&& before.len() == at
    &&& planned_entries(root, items)[at] == offered
}

/// The entries planned for the first items of a walk stay where they are
/// when the walk goes on.
proof fn lemma_plan_grows(root: Seq<Seq<char>>, items: Seq<WalkItem>, count: int)
    requires
        0 <= count <= items.len(),
    ensures
        planned_entries(root, items.take(count)).is_prefix_of(planned_entries(root, items)),
    decreases items.len(),
{
    if count == items.len() {
        assert(items.take(count) =~= items);
    } else {
        let front = items.drop_last();
        lemma_plan_grows(root, front, count);
        assert(front.take(count) =~= items.take(count));
    }
}

/// Where no item is offerable, nothing is planned.
proof fn lemma_nothing_planned(root: Seq<Seq<char>>, items: Seq<WalkItem>)
    requires
        forall|i: int| 0 <= i < items.len() ==> !offerable(root, #[trigger] items[i]),
    ensures
        planned_entries(root, items) == Seq::<(Seq<char>, Seq<u8>)>::empty(),
    decreases items.len(),
{
    if items.len() > 0 {
        let front = items.drop_last();
        assert forall|i: int| 0 <= i < front.len() implies !offerable(root, #[trigger] front[i]) by {
            assert(front[i] == items[i]);
        }
        lemma_nothing_planned(root, front);
        assert(!offerable(root, items[items.len() - 1]));
    }
}

/// Each planned entry was made from an item of the walk.
proof fn lemma_plan_origin(root: Seq<Seq<char>>, items: Seq<WalkItem>, at: int)
    requires
        0 <= at < planned_entries(root, items).len(),
    ensures
        exists|index: int| made_from(root, items, at, index),
    decreases items.len(),
{
    let front = items.drop_last();
    let before = planned_entries(root, front);
    let last = items.len() - 1;
    assert(items.take(last) =~= front);
    if at == before.len() {
        assert(made_from(root, items, at, last));
    } else {
        lemma_plan_origin(root, front, at);
        let index = choose|index: int| made_from(root, front, at, index);
        assert(front.take(index) =~= items.take(index));
        assert(made_from(root, items, at, index));
    }
}

/// The offer of an item that the archive stores is the planned entry that
/// follows the entries planned before the item.
proof fn lemma_stored_is_planned(root: Seq<Seq<char>>, items: Seq<WalkItem>, index: int)
    requires
        0 <= index < items.len(),
        offerable(root, items[index]),
        stores(
            planned_entries(root, items.take(index)),
            offer(root, items[index]).0,
            offer(root, items[index]).1,
        ),
    ensures
        made_from(root, items, planned_entries(root, items.take(index)).len() as int, index),
        planned_entries(root, items.take(index)).len() < planned_entries(root, items).len(),
{
    let upto = items.take(index + 1);
    assert(upto.drop_last() =~= items.take(index));
    assert(upto.last() == items[index]);
    lemma_plan_grows(root, items, index + 1);
    let before = planned_entries(root, items.take(index));
    assert(planned_entries(root, upto)[before.len() as int] == offer(root, items[index]));
}

/// A walk that meets no file with an extension from the list gives an
/// archive without entries, which is an archive all the same: it opens and
/// lists nothing.
pub proof fn excluded_extensions_give_empty_archive(
    archive: Archive,
    root: Seq<Seq<char>>,
    items: Seq<WalkItem>,
)
    requires
        forall|i: int|
            0 <= i < items.len() ==> (#[trigger] items[i] matches WalkItem::Entry { entry, .. }
                ==> !includes(entry)),
    ensures
        planned_entries(root, items) == Seq::<(Seq<char>, Seq<u8>)>::empty(),
        built_from(archive, root, items) ==> {
            &&& archive.file_count == 0
            &&& archive_names(archive.bytes@) == Some(Seq::<Seq<char>>::empty())
            &&& archive_entries(archive.bytes@) == Some(Seq::<(Seq<char>, Seq<u8>)>::empty())
        },
{
    lemma_nothing_planned(root, items);
    if built_from(archive, root, items) {
        assert(names_of(planned_entries(root, items)) =~= Seq::<Seq<char>>::empty());
        lemma_holds_reads_back(archive.bytes@, planned_entries(root, items));
    }
}

/// A file that is larger than the limit is left out of the archive,
/// whatever its extension: nothing is offered for it, it is skipped, and no
/// entry is made from it.
pub proof fn oversized_file_is_left_out(
    archive: Archive,
    root: Seq<Seq<char>>,
    items: Seq<WalkItem>,
    index: int,
)
    requires
        0 <= index < items.len(),
        items[index] matches WalkItem::Entry { entry, .. } && entry.kind == EntryKind::File
            && entry.size > MAX_FILE_SIZE,
    ensures
        !offerable(root, items[index]),
        forall|at: int| !made_from(root, items, at, index),
        built_from(archive, root, items) ==> archive.fates@[index] is Skipped,
{
}

/// An entry whose first component below the root is the build directory is
/// left out of the archive, whatever it is and however deep it lies:
/// nothing is offered for it, it is skipped, and no entry is made from it.
pub proof fn build_directory_is_left_out(
    archive: Archive,
    root: Seq<Seq<char>>,
    items: Seq<WalkItem>,
    index: int,
)
    requires
        0 <= index < items.len(),
        items[index] matches WalkItem::Entry { entry, .. } && root.is_prefix_of(entry.path@)
            && entry.path@.len() > root.len() && entry.path@[root.len() as int]
            == build_directory(),
    ensures
        !offerable(root, items[index]),
        forall|at: int| !made_from(root, items, at, index),
        built_from(archive, root, items) ==> archive.fates@[index] is Skipped,
{
}

/// Every entry of the archive comes from an item of the walk that the rules
/// select: an included file within the size limit, strictly below the root,
/// outside the build directory, whose path below the root consists of plain
/// names. The entry has that path, joined by `/`, as its name and the
/// file's bytes as its content, and the item's fate is `Stored`.
pub proof fn entries_come_from_selected_files(
    archive: Archive,
    root: Seq<Seq<char>>,
    items: Seq<WalkItem>,
    at: int,
)
    requires
        0 <= at < planned_entries(root, items).len(),
    ensures
        exists|index: int| made_from(root, items, at, index),
        built_from(archive, root, items) ==> exists|index: int|
            made_from(root, items, at, index) && archive.fates@[index] is Stored,
{
    lemma_plan_origin(root, items, at);
    if built_from(archive, root, items) {
        let index = choose|index: int| made_from(root, items, at, index);
        assert(fate_fits(
            root,
            planned_entries(root, items.take(index)),
            items[index],
            archive.fates@[index],
        ));
    }
}

/// Every entry of the archive lies strictly below the root: its name
/// splits at its slashes into one or more plain names, none of them `.` or
/// `..`, and these names, put behind the root's components, are the path of
/// the file that the entry was made from.
pub proof fn entries_stay_below_root(root: Seq<Seq<char>>, items: Seq<WalkItem>, at: int)
    requires
        0 <= at < planned_entries(root, items).len(),
    ensures
        ({
            let name = planned_entries(root, items)[at].0;
            &&& segments(name).len() > 0
            &&& plain_names(segments(name))
            &&& exists|index: int|
                0 <= index < items.len() && (#[trigger] items[index] matches WalkItem::Entry {
                    entry,
                    ..
                } && entry.path@ == root + segments(name))
        }),
{
    lemma_plan_origin(root, items, at);
    let index = choose|index: int| made_from(root, items, at, index);
    match items[index] {
        WalkItem::Entry { entry, content } => {
            let below = entry.path@.skip(root.len() as int);
            lemma_plain_names_slash_free(below);
            lemma_segments_of_joined(below);
            assert(entry.path@ =~= root + below);
        },
        WalkItem::Failed { .. } => {},
    }
}

/// The bytes of every stored file, extracted from the archive under the
/// file's path below the root, are the bytes that were handed in.
pub proof fn stored_file_reads_back(
    archive: Archive,
    root: Seq<Seq<char>>,
    items: Seq<WalkItem>,
    index: int,
)
    requires
        0 <= index < items.len(),
    ensures
        built_from(archive, root, items) && archive.fates@[index] is Stored ==> {
            &&& items[index] matches WalkItem::Entry { entry, content: Loaded::Bytes(bytes) }
            &&& archive_file(archive.bytes@, joined(entry.path@.skip(root.len() as int))) == Some(
                bytes@,
            )
        },
{
    if built_from(archive, root, items) && archive.fates@[index] is Stored {
        let before = planned_entries(root, items.take(index));
        assert(fate_fits(root, before, items[index], archive.fates@[index]));
        lemma_stored_is_planned(root, items, index);
        let entries = planned_entries(root, items);
        let at = before.len() as int;
        assert(archive_file(archive.bytes@, entries[at].0) == Some(entries[at].1));
    }
}

/// Two archives built from the same walk hold the same entries: the same
/// names with the same bytes, in the same order, whatever the compressed
/// bytes are. They also give every item the same kind of fate.
pub proof fn same_walk_gives_same_entries(
    first: Archive,
    second: Archive,
    root: Seq<Seq<char>>,
    items: Seq<WalkItem>,
)
    ensures
        built_from(first, root, items) && built_from(second, root, items) ==> {
            &&& archive_entries(first.bytes@) == Some(planned_entries(root, items))
            &&& archive_entries(first.bytes@) == archive_entries(second.bytes@)
            &&& archive_entries(first.bytes@)->0.to_set() == archive_entries(
                second.bytes@,
            )->0.to_set()
            &&& first.file_count == second.file_count
            &&& forall|i: int|
                0 <= i < items.len() ==> (first.fates@[i] is Stored <==> second.fates@[i] is Stored)
                    && (first.fates@[i] is Skipped <==> second.fates@[i] is Skipped)
        },
{
    if built_from(first, root, items) && built_from(second, root, items) {
        lemma_holds_reads_back(first.bytes@, planned_entries(root, items));
        lemma_holds_reads_back(second.bytes@, planned_entries(root, items));
        assert forall|i: int| 0 <= i < items.len() implies (first.fates@[i] is Stored
            <==> second.fates@[i] is Stored) && (first.fates@[i] is Skipped
            <==> second.fates@[i] is Skipped) by {
            let before = planned_entries(root, items.take(i));
            assert(fate_fits(root, before, items[i], first.fates@[i]));
            assert(fate_fits(root, before, items[i], second.fates@[i]));
        }
    }
}

} // verus!
