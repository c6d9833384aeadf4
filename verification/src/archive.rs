//! The ZIP container of a package: taking an archive apart into its
//! entries, and putting entries together into an archive.

use vstd::prelude::*;
use crate::error::OfficeError;

verus! {

/// `std::io::Cursor`, over which an archive is read from memory. Nothing
/// is claimed of it.
#[verifier::external_type_specification]
#[verifier::external_body]
#[verifier::reject_recursive_types(T)]
pub struct ExCursor<T>(std::io::Cursor<T>);

/// `zip::result::ZipError`, the failure of an operation on an archive.
/// Nothing is claimed of it.
#[verifier::external_type_specification]
#[verifier::external_body]
pub struct ExZipError(zip::result::ZipError);

/// `zip::ZipArchive`, an archive that is open for reading. What is
/// claimed of it is said over the bytes that it reads from.
#[verifier::external_type_specification]
#[verifier::external_body]
#[verifier::reject_recursive_types(R)]
pub struct ExZipArchive<R>(zip::ZipArchive<R>);

/// A `zip::ZipWriter` that writes into memory. What is claimed of it is
/// said over the entries that have been written to it.
#[verifier::external_body]
pub struct ArchiveWriter {
    inner: zip::ZipWriter<std::io::Cursor<Vec<u8>>>,
}

/// The bytes that an archive reads from.
pub uninterp spec fn archive_source(archive: zip::ZipArchive<std::io::Cursor<Vec<u8>>>) -> Seq<u8>;

/// How many entries the archive with the bytes `bytes` has; nothing where
/// the bytes are no archive.
pub uninterp spec fn entry_count(bytes: Seq<u8>) -> Option<nat>;

/// The name and the data of the entry `index` of the archive with the
/// bytes `bytes`; nothing where the entry cannot be read.
pub uninterp spec fn entry_at(bytes: Seq<u8>, index: nat) -> Option<(Seq<char>, Seq<u8>)>;

/// The entries that have been written to a writer, each with its name and
/// the data written to it so far.
pub uninterp spec fn written_entries(writer: ArchiveWriter) -> Seq<(Seq<char>, Seq<u8>)>;

/// Whether a writer to which the entries `written` have been written
/// begins a new entry of the name `name`.
pub uninterp spec fn can_start(written: Seq<(Seq<char>, Seq<u8>)>, name: Seq<char>) -> bool;

/// Whether a writer to which the entries `written` have been written takes
/// the data `data` for the entry begun last.
pub uninterp spec fn can_write(written: Seq<(Seq<char>, Seq<u8>)>, data: Seq<u8>) -> bool;

/// Whether a writer to which the entries `written` have been written ends
/// the archive.
pub uninterp spec fn can_finish(written: Seq<(Seq<char>, Seq<u8>)>) -> bool;

/// Whether the entries `entries` can be written into an archive: the
/// writer begins each entry behind those before it, takes its data, and
/// ends the archive behind the last.
pub open spec fn can_archive(entries: Seq<(Seq<char>, Seq<u8>)>) -> bool {
    &&& forall|i: int|
        0 <= i < entries.len() ==> can_start(entries.take(i), (#[trigger] entries[i]).0)
            && can_write(entries.take(i).push((entries[i].0, Seq::<u8>::empty())), entries[i].1)
    &&& can_finish(entries)
}

/// Whether the archive with the bytes `bytes` holds exactly the entries
/// `entries`, in their order.
pub open spec fn reads_back(bytes: Seq<u8>, entries: Seq<(Seq<char>, Seq<u8>)>) -> bool {
    &&& entry_count(bytes) == Some(entries.len())
    &&& forall|i: int| 0 <= i < entries.len() ==> entry_at(bytes, i as nat) == Some(#[trigger] entries[i])
}

/// `zip::ZipArchive::new` reads the directory of an archive and fails on
/// bytes that are no archive.
#[verifier::external_body]
fn open_archive(bytes: Vec<u8>) -> (res: Result<
    zip::ZipArchive<std::io::Cursor<Vec<u8>>>,
    zip::result::ZipError,
>)
    ensures
        match res {
            Ok(archive) => archive_source(archive) == bytes@ && entry_count(bytes@) is Some,
            Err(_) => entry_count(bytes@) is None,
        },
{
    zip::ZipArchive::new(std::io::Cursor::new(bytes))
}

/// `zip::ZipArchive::len` is the number of entries of the archive.
#[verifier::external_body]
fn archive_len(archive: &zip::ZipArchive<std::io::Cursor<Vec<u8>>>) -> (count: usize)
    ensures
        entry_count(archive_source(*archive)) == Some(count as nat),
{
    archive.len()
}

/// `zip::ZipArchive::by_index` finds the entry at a place of the archive;
/// its name and all its data are read. The archive reads from the same
/// bytes afterwards.
#[verifier::external_body]
fn archive_entry(archive: &mut zip::ZipArchive<std::io::Cursor<Vec<u8>>>, index: usize) -> (res:
    Result<(String, Vec<u8>), zip::result::ZipError>)
    ensures
        archive_source(*final(archive)) == archive_source(*old(archive)),
        match res {
            Ok((name, data)) => entry_at(archive_source(*old(archive)), index as nat) == Some(
                (name@, data@),
            ),
            Err(_) => entry_at(archive_source(*old(archive)), index as nat) is None,
        },
{
    let mut file = archive.by_index(index)?;
    let name = file.name()?.into_owned();
    let mut data = Vec::new();
    std::io::Read::read_to_end(&mut file, &mut data)?;
    Ok((name, data))
}

/// `zip::ZipWriter::new` makes a writer to which no entry has been
/// written.
#[verifier::external_body]
fn writer_new() -> (writer: ArchiveWriter)
    ensures
        written_entries(writer) == Seq::<(Seq<char>, Seq<u8>)>::empty(),
{
    ArchiveWriter { inner: zip::ZipWriter::new(std::io::Cursor::new(Vec::new())) }
}

/// `zip::ZipWriter::start_file` begins a new entry of the name given,
/// without data yet. The writer writes into memory and stamps no time, so
/// whether it begins the entry rests on the entries written and the name
/// alone: that is what `can_start` names.
#[verifier::external_body]
fn writer_start(writer: &mut ArchiveWriter, name: &str) -> (res: Result<(), zip::result::ZipError>)
    ensures
        res is Ok <==> can_start(written_entries(*old(writer)), name@),
        res is Ok ==> written_entries(*final(writer)) == written_entries(*old(writer)).push(
            (name@, Seq::<u8>::empty()),
        ),
{
    writer.inner.start_file(name, zip::write::SimpleFileOptions::default())
}

/// Writing to a `zip::ZipWriter` on which an entry has been begun adds the
/// data to the entry begun last. Of a writer without an entry nothing is
/// claimed: it is not admitted. Whether the writer takes the data rests on
/// the entries written and the data alone: that is what `can_write` names.
#[verifier::external_body]
fn writer_write(writer: &mut ArchiveWriter, data: &[u8]) -> (res: Result<(), std::io::Error>)
    requires
        written_entries(*old(writer)).len() > 0,
    ensures
        res is Ok <==> can_write(written_entries(*old(writer)), data@),
        res is Ok ==> written_entries(*final(writer))
            == written_entries(*old(writer)).drop_last().push(
            (
                written_entries(*old(writer)).last().0,
                written_entries(*old(writer)).last().1 + data@,
            ),
        ),
{
    std::io::Write::write_all(&mut writer.inner, data)
}

/// `zip::ZipWriter::finish` ends the archive and gives its bytes: an
/// archive that holds the entries written, in their order. Whether the
/// writer ends the archive rests on the entries written alone: that is
/// what `can_finish` names.
#[verifier::external_body]
fn writer_finish(writer: ArchiveWriter) -> (res: Result<Vec<u8>, zip::result::ZipError>)
    ensures
        res is Ok <==> can_finish(written_entries(writer)),
        res matches Ok(bytes) ==> reads_back(bytes@, written_entries(writer)),
{
    Ok(writer.inner.finish()?.into_inner())
}

/// A list of entries as plain mathematical values.
pub open spec fn entries_view(entries: Seq<(String, Vec<u8>)>) -> Seq<(Seq<char>, Seq<u8>)> {
    Seq::new(entries.len(), |i: int| (entries[i].0@, entries[i].1@))
}

/// Whether every entry of the archive with the bytes `bytes` can be read.
pub open spec fn is_readable(bytes: Seq<u8>) -> bool {
    entry_count(bytes) is Some && forall|i: nat|
        i < entry_count(bytes)->0 ==> (#[trigger] entry_at(bytes, i)) is Some
}

/// The entries of the archive `bytes`, each with its name and its data,
/// in the order of the archive. Bytes that are no archive, and an archive
/// with an entry that cannot be read, are reported as a failure of the
/// package.
pub fn read_archive(bytes: Vec<u8>) -> (res: Result<Vec<(String, Vec<u8>)>, OfficeError>)
    ensures
        match res {
            Ok(entries) => is_readable(bytes@) && reads_back(bytes@, entries_view(entries@)),
            Err(e) => e == OfficeError::PackageIo && !is_readable(bytes@),
        },
{
    let mut archive = match open_archive(bytes) {
        Ok(archive) => archive,
        Err(_) => {
            return Err(OfficeError::PackageIo);
        },
    };
    let count = archive_len(&archive);
    let mut entries: Vec<(String, Vec<u8>)> = Vec::new();
    let mut i: usize = 0;
    while i < count
        invariant
            i <= count,
            archive_source(archive) == bytes@,
            entry_count(bytes@) == Some(count as nat),
            entries.len() == i,
            forall|k: int|
                0 <= k < i ==> entry_at(bytes@, k as nat) == Some(
                    #[trigger] entries_view(entries@)[k],
                ),
        decreases count - i,
    {
        match archive_entry(&mut archive, i) {
            Ok(entry) => {
                let ghost before = entries_view(entries@);
                entries.push(entry);
                assert forall|k: int| 0 <= k < i + 1 implies entry_at(bytes@, k as nat) == Some(
                    #[trigger] entries_view(entries@)[k],
                ) by {
                    if k < i {
                        assert(entries_view(entries@)[k] == before[k]);
                    }
                }
            },
            Err(_) => {
                assert(entry_at(bytes@, i as nat) is None);
                return Err(OfficeError::PackageIo);
            },
        }
        i += 1;
    }
    assert forall|k: nat| k < entry_count(bytes@)->0 implies (#[trigger] entry_at(bytes@, k))
        is Some by {
        assert(entry_at(bytes@, k) == Some(entries_view(entries@)[k as int]));
    }
    Ok(entries)
}

/// The archive that holds the entries `entries`, each under its name and
/// with its data, in their order. The archive is given exactly where the
/// entries can be written into one; else a failure of the package is
/// reported. Bytes that are given hold exactly the entries.
pub fn write_archive(entries: &Vec<(String, Vec<u8>)>) -> (res: Result<Vec<u8>, OfficeError>)
    ensures
        match res {
            Ok(bytes) => reads_back(bytes@, entries_view(entries@)),
            Err(e) => e == OfficeError::PackageIo,
        },
        res is Ok <==> can_archive(entries_view(entries@)),
{
    let mut writer = writer_new();
    let ghost all = entries_view(entries@);
    let mut i: usize = 0;
    assert(all.take(0) =~= Seq::<(Seq<char>, Seq<u8>)>::empty());
    while i < entries.len()
        invariant
            i <= entries.len(),
            all == entries_view(entries@),
            written_entries(writer) == all.take(i as int),
            forall|k: int|
                0 <= k < i ==> can_start(all.take(k), (#[trigger] all[k]).0) && can_write(
                    all.take(k).push((all[k].0, Seq::<u8>::empty())),
                    all[k].1,
                ),
        decreases entries.len() - i,
    {
        assert(all[i as int] == (entries@[i as int].0@, entries@[i as int].1@));
        match writer_start(&mut writer, entries[i].0.as_str()) {
            Ok(_) => {},
            Err(_) => {
                return Err(OfficeError::PackageIo);
            },
        }
        match writer_write(&mut writer, entries[i].1.as_slice()) {
            Ok(_) => {},
            Err(_) => {
                return Err(OfficeError::PackageIo);
            },
        }
        proof {
            let started = all.take(i as int).push((entries@[i as int].0@, Seq::<u8>::empty()));
            assert(started.drop_last() =~= all.take(i as int));
            assert(Seq::<u8>::empty() + entries@[i as int].1@ =~= entries@[i as int].1@);
            assert(written_entries(writer) =~= all.take(i + 1));
        }
        i += 1;
    }
    assert(all.take(i as int) =~= all);
    match writer_finish(writer) {
        Ok(bytes) => Ok(bytes),
        Err(_) => Err(OfficeError::PackageIo),
    }
}

} // verus!
