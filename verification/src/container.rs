//! The boundary to the `zip` crate, which writes and reads the archive
//! format. Nothing in this file is proved: each function's contract states
//! what the crate's source shows of the call that the body makes, and the
//! rest of the library is verified against these contracts.

use vstd::prelude::*;
use vstd::string::*;

verus! {

/// An archive under construction: a `zip::ZipWriter` over a buffer in memory.
#[verifier::external_body]
pub struct Container {
    writer: zip::ZipWriter<std::io::Cursor<Vec<u8>>>,
}

/// The error type of the `zip` crate.
#[verifier::external_type_specification]
#[verifier::external_body]
pub struct ExZipError(zip::result::ZipError);

/// The error type of `std::io`.
#[verifier::external_type_specification]
#[verifier::external_body]
pub struct ExIoError(std::io::Error);

/// The entries that the writer holds, in the order in which they were
/// started: each with its name and the bytes written to it so far.
pub uninterp spec fn written(c: Container) -> Seq<(Seq<char>, Seq<u8>)>;

/// Whether the last entry of the writer is still open for writing
/// (`ZipWriter::is_writing_file`).
pub uninterp spec fn writing(c: Container) -> bool;

/// Whether `ZipWriter::start_file` takes a new entry called `name`, on a
/// writer that holds `entries`. The crate decides this by the entries held
/// and the name; all that is stated of it here is that a name which an
/// entry already has is refused.
pub uninterp spec fn accepts(entries: Seq<(Seq<char>, Seq<u8>)>, name: Seq<char>) -> bool;

/// Whether `Write::write_all` succeeds in adding `bytes` to the last entry
/// of a writer that holds `entries`, the last of them open.
pub uninterp spec fn takes(entries: Seq<(Seq<char>, Seq<u8>)>, bytes: Seq<u8>) -> bool;

/// Whether `ZipWriter::finish` succeeds on a writer that holds `entries`.
pub uninterp spec fn closes(entries: Seq<(Seq<char>, Seq<u8>)>) -> bool;

/// The names that `zip::ZipArchive` lists for an archive, in the order of
/// its directory; `None` where it cannot open the bytes as an archive.
pub uninterp spec fn archive_names(bytes: Seq<u8>) -> Option<Seq<Seq<char>>>;

/// The bytes that `zip::ZipArchive` extracts from an archive under a name;
/// `None` where it finds no such entry or cannot read it.
pub uninterp spec fn archive_file(bytes: Seq<u8>, name: Seq<char>) -> Option<Seq<u8>>;

/// The texts of a vector of strings.
pub open spec fn texts(names: Seq<String>) -> Seq<Seq<char>> {
    Seq::new(names.len(), |i: int| names[i]@)
}

/// The names of a sequence of entries.
pub open spec fn names_of(entries: Seq<(Seq<char>, Seq<u8>)>) -> Seq<Seq<char>> {
    Seq::new(entries.len(), |i: int| entries[i].0)
}

/// An archive that lists exactly the names of `entries`, in their order, and
/// gives back each entry's bytes under its name.
pub open spec fn holds_entries(bytes: Seq<u8>, entries: Seq<(Seq<char>, Seq<u8>)>) -> bool {
    &&& archive_names(bytes) == Some(names_of(entries))
    &&& forall|i: int|
        0 <= i < entries.len() ==> archive_file(bytes, #[trigger] entries[i].0) == Some(
            entries[i].1,
        )
}

/// The longest entry name, in bytes of UTF-8, that the archive format's
/// headers can hold.
pub const MAX_NAME_BYTES: usize = 65535;

/// `ZipWriter::new` over an empty `Cursor<Vec<u8>>`: a writer without
/// entries and with no entry open.
#[verifier::external_body]
pub(crate) fn zip_new() -> (c: Container)
    ensures
        written(c) == Seq::<(Seq<char>, Seq<u8>)>::empty(),
        !writing(c),
{
    Container { writer: zip::ZipWriter::new(std::io::Cursor::new(Vec::new())) }
}

/// `ZipWriter::start_file` with the default options and deflate compression.
/// Whether it succeeds is `accepts` of the entries held and the name, and
/// it fails for a name that an entry already has. On success the writer
/// holds one more entry, named `name`, empty and open. On failure it holds
/// the entries that it held before. The call panics for a name longer than
/// `MAX_NAME_BYTES`, which `requires` leaves out.
#[verifier::external_body]
pub(crate) fn zip_start_file(c: &mut Container, name: &str) -> (res: Result<
    (),
    zip::result::ZipError,
>)
    requires
        name.spec_bytes().len() <= MAX_NAME_BYTES,
    ensures
        res is Ok <==> accepts(written(*old(c)), name@),
        names_of(written(*old(c))).contains(name@) ==> res is Err,
        res is Ok ==> written(*final(c)) == written(*old(c)).push((name@, Seq::<u8>::empty()))
            && writing(*final(c)),
        res is Err ==> written(*final(c)) == written(*old(c)),
{
    let options = zip::write::SimpleFileOptions::default();
    c.writer.start_file(name, options.compression_method(zip::CompressionMethod::Deflated))
}

/// `Write::write_all` on the writer, while an entry is open. Whether it
/// succeeds is `takes` of the entries held and the bytes. On success the
/// open entry has `bytes` added at its end. On failure the writer either
/// still has the entry open, with some part of `bytes` added to it, or has
/// dropped the entry.
#[verifier::external_body]
pub(crate) fn zip_write_all(c: &mut Container, bytes: &[u8]) -> (res: Result<(), std::io::Error>)
    requires
        writing(*old(c)),
        written(*old(c)).len() > 0,
    ensures
        res is Ok <==> takes(written(*old(c)), bytes@),
        res is Ok ==> writing(*final(c)) && written(*final(c)) == written(
            *old(c),
        ).drop_last().push((written(*old(c)).last().0, written(*old(c)).last().1 + bytes@)),
        res is Err && writing(*final(c)) ==> written(*final(c)).len() == written(*old(c)).len()
            && written(*final(c)).drop_last() == written(*old(c)).drop_last(),
        res is Err && !writing(*final(c)) ==> written(*final(c)) == written(
            *old(c),
        ).drop_last(),
{
    std::io::Write::write_all(&mut c.writer, bytes)
}

/// `ZipWriter::is_writing_file`.
#[verifier::external_body]
pub(crate) fn zip_is_writing(c: &Container) -> (res: bool)
    ensures
        res == writing(*c),
{
    c.writer.is_writing_file()
}

/// `ZipWriter::abort_file`: the writer drops its last entry, whether the
/// call reports success or not.
#[verifier::external_body]
pub(crate) fn zip_abort_file(c: &mut Container) -> (res: Result<(), zip::result::ZipError>)
    requires
        written(*old(c)).len() > 0,
    ensures
        written(*final(c)) == written(*old(c)).drop_last(),
{
    c.writer.abort_file()
}

/// `ZipWriter::finish`, and the buffer taken out of the cursor that it
/// returns. Whether it succeeds is `closes` of the entries held. Where it
/// does, the bytes are an archive of the writer's entries: `zip::ZipArchive`
/// lists their names in order and extracts each entry's bytes under its
/// name.
#[verifier::external_body]
pub(crate) fn zip_finish(c: Container) -> (res: Result<Vec<u8>, zip::result::ZipError>)
    ensures
        res is Ok <==> closes(written(c)),
        res matches Ok(bytes) ==> holds_entries(bytes@, written(c)),
{
    Ok(c.writer.finish()?.into_inner())
}

/// `ZipArchive::new` over the bytes and `ZipArchive::file_names`.
#[verifier::external_body]
pub(crate) fn zip_names(bytes: &[u8]) -> (res: Option<Vec<String>>)
    ensures
        match res {
            Some(names) => archive_names(bytes@) == Some(texts(names@)),
            None => archive_names(bytes@) is None,
        },
{
    let archive = zip::ZipArchive::new(std::io::Cursor::new(bytes)).ok()?;
    Some(archive.file_names().map(|name| name.to_string()).collect())
}

/// `ZipArchive::new` over the bytes, `ZipArchive::by_name` and `Read::read_to_end`
/// on the entry that it gives.
#[verifier::external_body]
pub(crate) fn zip_extract(bytes: &[u8], name: &str) -> (res: Option<Vec<u8>>)
    ensures
        match res {
            Some(content) => archive_file(bytes@, name@) == Some(content@),
            None => archive_file(bytes@, name@) is None,
        },
{
    let mut archive = zip::ZipArchive::new(std::io::Cursor::new(bytes)).ok()?;
    let mut entry = archive.by_name(name).ok()?;
    let mut content = Vec::new();
    std::io::Read::read_to_end(&mut entry, &mut content).ok()?;
    Some(content)
}

} // verus!
