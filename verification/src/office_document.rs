//! The package store: one record for each file of the package, with the
//! file's content kept compressed. A file is kept as the bytes that were
//! put in, or, once its XML has been read or written, as the XML text of
//! its document.

use vstd::prelude::*;
use vstd::utf8::{decode_utf8, encode_utf8, valid_utf8};
use crate::archive::{
    can_archive, entries_view, entry_at, entry_count, is_readable, read_archive, reads_back,
    write_archive,
};
use crate::codec::{compress_content, decompress_content, gunzip, gzip};
use crate::error::OfficeError;
use crate::text::str_eq;
use crate::xml_deserialize::{XmlDeSerializer, document_text, node_text, prolog_text};
use crate::xml_document::XmlDocument;
use crate::xml_grammar::parse_document;
use crate::xml_node::Node;
use crate::xml_serialize::XmlSerializer;

verus! {

/// One record of the store, as plain mathematical values.
pub struct RecordModel {
    pub id: u32,
    pub file_name: Seq<char>,
    pub content_type: Seq<char>,
    /// The number of bytes of what is kept of the file, compressed.
    pub compressed_file_size: nat,
    /// The number of bytes of the file.
    pub uncompressed_file_size: nat,
    pub compression_level: u8,
    pub compression_type: Seq<char>,
    /// The file's bytes as they were put in, compressed.
    pub file_content: Option<Seq<u8>>,
    /// The XML text of the file's document, compressed.
    pub tree_content: Option<Seq<u8>>,
}

/// One record of the store: a file of the package with what is kept of
/// it.
#[derive(Debug)]
pub struct ArchiveRecordModel {
    pub id: u32,
    pub file_name: String,
    pub content_type: String,
    pub compressed_file_size: usize,
    pub uncompressed_file_size: usize,
    pub compression_level: u8,
    pub compression_type: String,
    pub file_content: Option<Vec<u8>>,
    pub tree_content: Option<Vec<u8>>,
}

/// What a record keeps of its file's content.
#[derive(Debug)]
pub struct ArchiveRecordFileModel {
    pub file_content: Option<Vec<u8>>,
    pub tree_content: Option<Vec<u8>>,
}

/// The bytes of an optional blob.
pub open spec fn opt_bytes(blob: Option<Vec<u8>>) -> Option<Seq<u8>> {
    match blob {
        Some(b) => Some(b@),
        None => None,
    }
}

impl View for ArchiveRecordModel {
    type V = RecordModel;

    open spec fn view(&self) -> RecordModel {
        RecordModel {
            id: self.id,
            file_name: self.file_name@,
            content_type: self.content_type@,
            compressed_file_size: self.compressed_file_size as nat,
            uncompressed_file_size: self.uncompressed_file_size as nat,
            compression_level: self.compression_level,
            compression_type: self.compression_type@,
            file_content: opt_bytes(self.file_content),
            tree_content: opt_bytes(self.tree_content),
        }
    }
}

/// A list of records as plain mathematical values.
pub open spec fn records_view(records: Seq<ArchiveRecordModel>) -> Seq<RecordModel> {
    Seq::new(records.len(), |i: int| records[i]@)
}

/// The names of the files of a list of records, in their order.
pub open spec fn file_names(records: Seq<RecordModel>) -> Seq<Seq<char>> {
    Seq::new(records.len(), |i: int| records[i].file_name)
}

/// The compressed bytes from which a record's file is read: the XML text
/// of its document where that is kept, else the bytes that were put in.
pub open spec fn source_blob(record: RecordModel) -> Option<Seq<u8>> {
    match record.tree_content {
        Some(blob) => Some(blob),
        None => record.file_content,
    }
}

/// The bytes of a record's file.
pub open spec fn payload(record: RecordModel) -> Option<Seq<u8>> {
    match source_blob(record) {
        Some(blob) => gunzip(blob),
        None => None,
    }
}

/// The entries that records stand for in an archive: each file under its
/// name and with its bytes, in the order of the records.
pub open spec fn stored_entries(records: Seq<RecordModel>) -> Seq<(Seq<char>, Seq<u8>)> {
    Seq::new(records.len(), |i: int| (records[i].file_name, payload(records[i])->0))
}

/// The tree of the document that the bytes `bytes` are the XML text of.
pub open spec fn parsed(bytes: Seq<u8>) -> Option<Node> {
    if valid_utf8(bytes) {
        parse_document(decode_utf8(bytes))
    } else {
        None
    }
}

/// The place of the record of the file `name`; the number of records where
/// there is none.
pub open spec fn record_index(records: Seq<RecordModel>, name: Seq<char>) -> nat {
    crate::style_tables::first_index(file_names(records), name)
}

/// Whether `blob` holds the XML text of `document`, compressed.
pub open spec fn holds_document(blob: Seq<u8>, document: XmlDocument) -> bool {
    gunzip(blob) == Some(encode_utf8(document_text(document@)))
}

/// What the invariant of the store asks of its records: no two of them are
/// of the same file, and each keeps its file in one of the two ways.
pub open spec fn records_wf(records: Seq<RecordModel>) -> bool {
    &&& file_names(records).no_duplicates()
    &&& forall|i: int| 0 <= i < records.len() ==> source_blob(#[trigger] records[i]) is Some
}

/// What the store holds of one file, as a reader of the package sees it.
pub struct FileModel {
    pub name: Seq<char>,
    pub content_type: Seq<char>,
    /// The file's bytes; nothing where what is kept of the file cannot be
    /// decompressed.
    pub bytes: Option<Seq<u8>>,
    /// Whether the XML text of the file's document is what is kept.
    pub is_document: bool,
}

/// What a record holds of its file.
pub open spec fn file_of(record: RecordModel) -> FileModel {
    FileModel {
        name: record.file_name,
        content_type: record.content_type,
        bytes: payload(record),
        is_document: record.tree_content is Some,
    }
}

/// What records hold of their files, in their order.
pub open spec fn files_of(records: Seq<RecordModel>) -> Seq<FileModel> {
    Seq::new(records.len(), |i: int| file_of(records[i]))
}

/// The names of files, in their order.
pub open spec fn names_of(files: Seq<FileModel>) -> Seq<Seq<char>> {
    Seq::new(files.len(), |i: int| files[i].name)
}

/// The place of the file `name` among `files`; their number where it is
/// not among them.
pub open spec fn place_of(files: Seq<FileModel>, name: Seq<char>) -> nat {
    crate::style_tables::first_index(names_of(files), name)
}

/// Whether the file `name` is among `files`.
pub open spec fn holds_file(files: Seq<FileModel>, name: Seq<char>) -> bool {
    place_of(files, name) < files.len()
}

/// The bytes of the XML text of a document whose root's subtree is
/// `root`; of a document without a root where it is nothing.
pub open spec fn text_bytes(root: Option<Node>) -> Seq<u8> {
    match root {
        Some(node) => encode_utf8(prolog_text() + node_text(node)),
        None => encode_utf8(prolog_text()),
    }
}

/// The root's subtree of the document that the file `name` holds; nothing
/// where the file is not among `files` or its bytes are not the text of a
/// document.
pub open spec fn root_of(files: Seq<FileModel>, name: Seq<char>) -> Option<Node> {
    match bytes_of(files, name) {
        Some(bytes) => parsed(bytes),
        None => None,
    }
}

/// The bytes of the file `name`; nothing where the file is not among
/// `files`.
pub open spec fn bytes_of(files: Seq<FileModel>, name: Seq<char>) -> Option<Seq<u8>> {
    let place = place_of(files, name);
    if place < files.len() {
        files[place as int].bytes
    } else {
        None
    }
}

/// Whether a document whose root's subtree is `root` can be kept: its
/// text can be compressed.
pub open spec fn keepable(root: Option<Node>) -> bool {
    gzip(text_bytes(root)) is Some
}

/// Whether the document of the file `name` can be read: the file's bytes
/// are the text of a document, and where they were kept as they were put
/// in, the text of the document that is read of them can be kept.
pub open spec fn can_read(files: Seq<FileModel>, name: Seq<char>) -> bool {
    match root_of(files, name) {
        Some(root) => files[place_of(files, name) as int].is_document || keepable(Some(root)),
        None => false,
    }
}

/// The files after the document of the file `name` has been read: where
/// the file's bytes were kept as they were put in, the text of the
/// document that was read of them is kept in their place.
pub open spec fn after_read(files: Seq<FileModel>, name: Seq<char>) -> Seq<FileModel> {
    let place = place_of(files, name) as int;
    if place < files.len() && !files[place].is_document && root_of(files, name) is Some {
        files.update(
            place,
            FileModel {
                bytes: Some(text_bytes(root_of(files, name))),
                is_document: true,
                ..files[place]
            },
        )
    } else {
        files
    }
}

/// The files after a document whose root's subtree is `root` has been
/// kept as the file `name`: the file holds the text of that document. A
/// file that was not among them stands last, with the content type
/// `content_type`.
pub open spec fn after_write(
    files: Seq<FileModel>,
    name: Seq<char>,
    root: Option<Node>,
    content_type: Seq<char>,
) -> Seq<FileModel> {
    let place = place_of(files, name) as int;
    if place < files.len() {
        files.update(
            place,
            FileModel { bytes: Some(text_bytes(root)), is_document: true, ..files[place] },
        )
    } else {
        files.push(FileModel { name, content_type, bytes: Some(text_bytes(root)), is_document: true })
    }
}

/// The files without the file `name`.
pub open spec fn after_delete(files: Seq<FileModel>, name: Seq<char>) -> Seq<FileModel> {
    let place = place_of(files, name) as int;
    if place < files.len() {
        files.remove(place)
    } else {
        files
    }
}

/// The content type under which a file is kept of which no content type
/// is known.
pub open spec fn unknown_content_type() -> Seq<char> {
    "todo"@
}

/// The content type under which a file is kept of which no content type
/// is known.
pub fn unknown_type() -> (content_type: &'static str)
    ensures
        content_type@ == unknown_content_type(),
{
    "todo"
}

/// The files of the package that the archive with the bytes `bytes`
/// holds, as they are when the archive has been loaded: each entry is a
/// file, under its name and with its data.
pub open spec fn archive_files(bytes: Seq<u8>) -> Seq<FileModel> {
    Seq::new(entry_count(bytes)->0, |i: int| entry_file(entry_at(bytes, i as nat)->0))
}

/// The file that an entry of an archive is when the archive has been
/// loaded.
pub open spec fn entry_file(entry: (Seq<char>, Seq<u8>)) -> FileModel {
    FileModel {
        name: entry.0,
        content_type: unknown_content_type(),
        bytes: Some(entry.1),
        is_document: false,
    }
}

/// The id of the record at place `place` of a store that has only been
/// added to: ids count up from 1 and stop at the greatest id.
pub open spec fn counted_id(place: nat) -> u32 {
    if place + 1 < u32::MAX {
        (place + 1) as u32
    } else {
        u32::MAX
    }
}

/// Whether the record at place `place` is as loading an archive makes it:
/// it has the id of its place, the sizes of what it keeps and of its
/// file, and says that it is compressed with gzip at level 1.
pub open spec fn is_loaded_record(record: RecordModel, place: nat) -> bool {
    &&& record.id == counted_id(place)
    &&& record.tree_content is None
    &&& record.file_content is Some
    &&& record.compressed_file_size == record.file_content->0.len()
    &&& gunzip(record.file_content->0) is Some
    &&& record.uncompressed_file_size == gunzip(record.file_content->0)->0.len()
    &&& record.compression_level == 1
    &&& record.compression_type == "gzip"@
    &&& record.content_type == unknown_content_type()
}

/// The entries of the archive with the bytes `bytes`, in their order.
pub open spec fn archive_entries(bytes: Seq<u8>) -> Seq<(Seq<char>, Seq<u8>)> {
    Seq::new(entry_count(bytes)->0, |i: int| entry_at(bytes, i as nat)->0)
}

/// The names of entries, in their order.
pub open spec fn entry_names(entries: Seq<(Seq<char>, Seq<u8>)>) -> Seq<Seq<char>> {
    Seq::new(entries.len(), |i: int| entries[i].0)
}

/// What keeps entries from being loaded, if anything does: the first
/// entry that has the name of an entry before it is a failure of the
/// package, and the first entry whose data cannot be compressed is a
/// failure of the codec, whichever entry comes first.
pub open spec fn load_fault(entries: Seq<(Seq<char>, Seq<u8>)>) -> Option<OfficeError>
    decreases entries.len(),
{
    if entries.len() == 0 {
        None
    } else {
        match load_fault(entries.drop_last()) {
            Some(e) => Some(e),
            None => if entry_names(entries.drop_last()).contains(entries.last().0) {
                Some(OfficeError::PackageIo)
            } else if gzip(entries.last().1) is None {
                Some(OfficeError::Codec)
            } else {
                None
            },
        }
    }
}

/// What keeps the first of a list of entries from being loaded keeps the
/// list from being loaded.
pub proof fn lemma_load_fault_prefix(entries: Seq<(Seq<char>, Seq<u8>)>, k: int)
    requires
        0 <= k <= entries.len(),
    ensures
        load_fault(entries.take(k)) is Some ==> load_fault(entries) == load_fault(entries.take(k)),
    decreases entries.len(),
{
    if k == entries.len() {
        assert(entries.take(k) =~= entries);
    } else {
        assert(entries.drop_last().take(k) =~= entries.take(k));
        lemma_load_fault_prefix(entries.drop_last(), k);
    }
}

/// What loading the archive with the bytes `bytes` gives: the files of the
/// archive; a failure of the package for bytes that are no archive or hold
/// an entry that cannot be read; else what keeps its entries from being
/// loaded.
pub open spec fn loaded(bytes: Seq<u8>) -> Result<Seq<FileModel>, OfficeError> {
    if !is_readable(bytes) {
        Err(OfficeError::PackageIo)
    } else {
        match load_fault(archive_entries(bytes)) {
            Some(e) => Err(e),
            None => Ok(archive_files(bytes)),
        }
    }
}

/// The files of records have the records' names.
pub proof fn lemma_names_of_files(records: Seq<RecordModel>)
    ensures
        names_of(files_of(records)) == file_names(records),
        forall|name: Seq<char>| #[trigger]
            place_of(files_of(records), name) == record_index(records, name),
{
    assert(names_of(files_of(records)) =~= file_names(records));
}

/// The package store: the records of the files of one package, in the
/// order in which the files came in.
#[derive(Debug)]
pub struct OfficeDocument {
    records: Vec<ArchiveRecordModel>,
    next_id: u32,
    is_in_memory: bool,
}

impl View for OfficeDocument {
    type V = Seq<RecordModel>;

    closed spec fn view(&self) -> Seq<RecordModel> {
        records_view(self.records@)
    }
}

impl OfficeDocument {
    /// The invariant of the store.
    pub open spec fn wf(&self) -> bool {
        records_wf(self@)
    }

    /// The id that the next new record of the store gets. Ids count up
    /// from 1 and stop at the greatest id, which later records share.
    pub closed spec fn next_record_id(&self) -> u32 {
        self.next_id
    }

    /// Whether the store was asked to keep its records in memory only.
    pub closed spec fn in_memory(&self) -> bool {
        self.is_in_memory
    }

    /// The files of the store, in their order.
    pub open spec fn files(&self) -> Seq<FileModel> {
        files_of(self@)
    }

    /// Create or Clone existing document to start with
    ///
    /// The store of a new package, where no archive is given; else the
    /// store that holds the files of the archive `archive`, each as the
    /// bytes that the archive holds of it. An archive that cannot be read,
    /// or that holds two files of one name, is reported as a failure of
    /// the package.
    pub fn new(archive: Option<Vec<u8>>, is_in_memory: bool) -> (res: Result<Self, OfficeError>)
        ensures
            match archive {
                None => res matches Ok(store) && store.wf() && store@.len() == 0,
                Some(bytes) => match res {
                    Ok(store) => store.wf() && is_readable(bytes@) && entry_count(bytes@) == Some(
                        store@.len(),
                    ) && forall|i: int|
                        0 <= i < store@.len() ==> (#[trigger] store@[i]).tree_content is None
                            && entry_at(bytes@, i as nat) == Some(
                            (store@[i].file_name, payload(store@[i])->0),
                        ) && payload(store@[i]) is Some,
                    Err(e) => (e == OfficeError::PackageIo || e == OfficeError::Codec) && (
                    !is_readable(bytes@) ==> e == OfficeError::PackageIo),
                },
            },
            match archive {
                Some(bytes) => match res {
                    Ok(store) => loaded(bytes@) == Ok::<Seq<FileModel>, OfficeError>(store.files()),
                    Err(e) => loaded(bytes@) == Err::<Seq<FileModel>, OfficeError>(e),
                },
                None => res matches Ok(store) && store.files() == Seq::<FileModel>::empty(),
            },
            res matches Ok(store) ==> store.in_memory() == is_in_memory && store.next_record_id()
                == counted_id(store@.len()) && forall|i: int|
                0 <= i < store@.len() ==> is_loaded_record(#[trigger] store@[i], i as nat),
    {
        let mut store = Self { records: Self::initialize_database(), next_id: 1, is_in_memory };
        assert(store@ =~= Seq::<RecordModel>::empty());
        assert(store.files() =~= Seq::<FileModel>::empty());
        match archive {
            Some(bytes) => {
                // Load existing file to our system
                match store.load_archive_into_database(bytes) {
                    Ok(_) => Ok(store),
                    Err(e) => Err(e),
                }
            },
            None => Ok(store),
        }
    }

    /// The records of the store
    ///
    /// The records of the store, in their order.
    pub fn get_connection(&self) -> (records: &Vec<ArchiveRecordModel>)
        ensures
            records_view(records@) == self@,
    {
        &self.records
    }

    /// The records of a store without files.
    fn initialize_database() -> (records: Vec<ArchiveRecordModel>)
        ensures
            records@.len() == 0,
    {
        Vec::new()
    }

    /// The place of the record of the file `file_path`.
    fn find_record(&self, file_path: &str) -> (place: usize)
        ensures
            place == record_index(self@, file_path@),
            place <= self@.len(),
            place < self@.len() ==> self@[place as int].file_name == file_path@,
    {
        let ghost names = file_names(self@);
        assert(names.skip(0) == names);
        proof {
            crate::style_tables::lemma_first_index(names, file_path@);
        }
        let mut i: usize = 0;
        while i < self.records.len()
            invariant
                i <= self.records.len(),
                names == file_names(self@),
                crate::style_tables::first_index(names, file_path@)
                    == i + crate::style_tables::first_index(names.skip(i as int), file_path@),
            decreases self.records.len() - i,
        {
            proof {
                let rest = names.skip(i as int);
                assert(rest[0] == self.records@[i as int].file_name@);
                assert(rest.drop_first() == names.skip(i + 1));
            }
            if str_eq(self.records[i].file_name.as_str(), file_path) {
                return i;
            }
            i += 1;
        }
        i
    }

    /// Whether the store has the file `file_path`.
    pub fn has_file_named(&self, file_path: &str) -> (has: bool)
        ensures
            has == (record_index(self@, file_path@) < self@.len()),
    {
        self.find_record(file_path) < self.records.len()
    }

    /// Get Xml tree from content
    ///
    /// The document of the file `file_path`; nothing where the store has
    /// no such file. The document is read from the XML text that the store
    /// keeps of it, or, where it keeps none yet, from the bytes that were
    /// put in; its XML text is then kept for the next time. Bytes that
    /// cannot be decompressed, or are not the text of a document, are
    /// reported as a failure of the codec, and so is a failure to compress
    /// the text that is to be kept; the store is then left as it was.
    pub fn get_xml_tree(&mut self, file_path: &str) -> (res: Result<Option<XmlDocument>, OfficeError>)
        requires
            old(self).wf(),
        ensures
            final(self).wf(),
            file_names(final(self)@) == file_names(old(self)@),
            ({
                let place = record_index(old(self)@, file_path@);
                if place >= old(self)@.len() {
                    res matches Ok(None) && final(self)@ == old(self)@
                } else {
                    let record = old(self)@[place as int];
                    let root = match payload(record) {
                        Some(bytes) => parsed(bytes),
                        None => None,
                    };
                    (match res {
                        Ok(Some(document)) => document.wf() && document@.parent_or_root(None)
                            == Some(1usize) && root == Some(document@.tree(1)) && final(self)@.len() == old(self)@.len() && (forall|i: int|
                            0 <= i < old(self)@.len() && i != place ==> #[trigger] final(self)@[i]
                                == old(self)@[i]) && (match record.tree_content {
                            Some(_) => final(self)@[place as int] == record,
                            None => final(self)@[place as int].tree_content matches Some(kept)
                                && holds_document(kept, document) && final(self)@[place as int]
                                == (RecordModel {
                                tree_content: final(self)@[place as int].tree_content,
                                ..record
                            }),
                        }),
                        Ok(None) => false,
                        Err(e) => e == OfficeError::Codec && final(self)@ == old(self)@,
                    }) && (root is None ==> res is Err)
                }
            }),
            match res {
                Ok(Some(document)) => document@.root_tree() == root_of(
                    old(self).files(),
                    file_path@,
                ) && final(self).files() == after_read(old(self).files(), file_path@),
                _ => final(self).files() == old(self).files(),
            },
            holds_file(old(self).files(), file_path@) ==> (res is Ok <==> can_read(
                old(self).files(),
                file_path@,
            )),
    {
        proof {
            lemma_names_of_files(self@);
        }
        let place = self.find_record(file_path);
        if place >= self.records.len() {
            return Ok(None);
        }
        let ghost record = self@[place as int];
        let has_tree = self.records[place].tree_content.is_some();
        let plain = match &self.records[place].tree_content {
            Some(compress_content) => decompress_content(compress_content.as_slice()),
            None => match &self.records[place].file_content {
                Some(compress_content) => decompress_content(compress_content.as_slice()),
                None => Err(OfficeError::Codec),
            },
        };
        let plain = match plain {
            Ok(plain) => plain,
            Err(e) => {
                return Err(e);
            },
        };
        let xml_tree = match XmlSerializer::vec_to_xml_doc_tree(plain) {
            Ok(xml_tree) => xml_tree,
            Err(e) => {
                return Err(e);
            },
        };
        if !has_tree {
            let xml_tree_bytes = match XmlDeSerializer::xml_tree_to_vec(&xml_tree) {
                Ok(bytes) => bytes,
                Err(e) => {
                    return Err(e);
                },
            };
            let xml_tree_compressed = match compress_content(xml_tree_bytes.as_slice()) {
                Ok(compressed) => compressed,
                Err(e) => {
                    return Err(e);
                },
            };
            let ghost before = self@;
            self.records[place].tree_content = Some(xml_tree_compressed);
            proof {
                let after = self@;
                assert(file_names(after) =~= file_names(before));
                assert forall|i: int| 0 <= i < after.len() implies source_blob(#[trigger] after[i])
                    is Some by {
                    if i != place {
                        assert(after[i] == before[i]);
                    }
                }
                assert(files_of(after) =~= after_read(files_of(before), file_path@)) by {
                    assert forall|i: int| 0 <= i < after.len() implies files_of(after)[i]
                        == after_read(files_of(before), file_path@)[i] by {
                        if i != place {
                            assert(after[i] == before[i]);
                        }
                    }
                }
            }
        }
        Ok(Some(xml_tree))
    }

    /// Keeps `xml_document` as the document of the file `file_path`, of
    /// the content type `content_type`: its XML text is kept, compressed,
    /// and the bytes that were put in for the file are let go. A file that
    /// the store does not have yet is added behind its last file. A
    /// failure to compress the text is reported as a failure of the codec;
    /// the store is then left as it was.
    pub fn close_xml_document(
        &mut self,
        file_path: &str,
        xml_document: &XmlDocument,
        content_type: &str,
    ) -> (res: Result<(), OfficeError>)
        requires
            old(self).wf(),
            xml_document.wf(),
        ensures
            final(self).wf(),
            res is Ok ==> record_index(final(self)@, file_path@) < final(self)@.len(),
            forall|name: Seq<char>|
                record_index(old(self)@, name) < old(self)@.len() ==> record_index(
                    final(self)@,
                    name,
                ) < final(self)@.len(),
            ({
                let place = record_index(old(self)@, file_path@);
                match res {
                    Ok(_) => final(self)@.len() == (if place < old(self)@.len() {
                        old(self)@.len()
                    } else {
                        old(self)@.len() + 1
                    }) && (forall|i: int|
                        0 <= i < old(self)@.len() && i != place ==> #[trigger] final(self)@[i]
                            == old(self)@[i]) && final(self)@[place as int].file_name
                        == file_path@ && final(self)@[place as int].file_content is None && (final(self)@[place as int].tree_content matches Some(kept) && holds_document(
                        kept,
                        *xml_document,
                    )) && final(self)@[place as int].content_type == (if place < old(self)@.len() {
                        old(self)@[place as int].content_type
                    } else {
                        content_type@
                    }),
                    Err(e) => e == OfficeError::Codec && final(self)@ == old(self)@,
                }
            }),
            res is Ok ==> final(self).files() == after_write(
                old(self).files(),
                file_path@,
                xml_document@.root_tree(),
                content_type@,
            ),
            res is Ok <==> keepable(xml_document@.root_tree()),
            res is Ok ==> ({
                let place = record_index(old(self)@, file_path@) as int;
                let record = final(self)@[place];
                &&& record.tree_content matches Some(kept) && record.compressed_file_size
                    == kept.len()
                &&& record.uncompressed_file_size == text_bytes(xml_document@.root_tree()).len()
                &&& if place < old(self)@.len() {
                    record.id == old(self)@[place].id && record.compression_level
                        == old(self)@[place].compression_level && record.compression_type
                        == old(self)@[place].compression_type && final(self).next_record_id()
                        == old(self).next_record_id()
                } else {
                    record.id == old(self).next_record_id() && record.compression_level == 1
                        && record.compression_type == "gzip"@ && final(self).next_record_id() == (
                    if old(self).next_record_id() < u32::MAX {
                        (old(self).next_record_id() + 1) as u32
                    } else {
                        old(self).next_record_id()
                    })
                }
            }),
    {
        proof {
            lemma_names_of_files(self@);
        }
        let xml_tree_bytes = match XmlDeSerializer::xml_tree_to_vec(xml_document) {
            Ok(bytes) => bytes,
            Err(e) => {
                return Err(OfficeError::Codec);
            },
        };
        let uncompressed_file_size = xml_tree_bytes.len();
        let compressed = match compress_content(xml_tree_bytes.as_slice()) {
            Ok(compressed) => compressed,
            Err(e) => {
                return Err(e);
            },
        };
        let place = self.find_record(file_path);
        let ghost before = self@;
        if place < self.records.len() {
            self.records[place].compressed_file_size = compressed.len();
            self.records[place].uncompressed_file_size = uncompressed_file_size;
            self.records[place].tree_content = Some(compressed);
            self.records[place].file_content = None;
            proof {
                let after = self@;
                assert(file_names(after) =~= file_names(before));
                crate::style_tables::lemma_first_index(file_names(before), file_path@);
                assert forall|i: int| 0 <= i < after.len() implies source_blob(#[trigger] after[i])
                    is Some by {
                    if i != place {
                        assert(after[i] == before[i]);
                    }
                }
            }
        } else {
            let id = self.next_id;
            self.next_id = if id < 0xffff_ffff {
                id + 1
            } else {
                id
            };
            let record = ArchiveRecordModel {
                id,
                file_name: file_path.to_owned(),
                content_type: content_type.to_owned(),
                compressed_file_size: compressed.len(),
                uncompressed_file_size,
                compression_level: 1,
                compression_type: "gzip".to_owned(),
                file_content: None,
                tree_content: Some(compressed),
            };
            self.records.push(record);
            proof {
                let after = self@;
                crate::style_tables::lemma_first_index(file_names(before), file_path@);
                assert(after =~= before.push(record@));
                assert(file_names(after) =~= file_names(before).push(file_path@));
                crate::style_tables::lemma_first_index_push(
                    file_names(before),
                    file_path@,
                    file_path@,
                );
                assert forall|name: Seq<char>|
                    record_index(before, name) < before.len() implies record_index(after, name)
                    < after.len() by {
                    crate::style_tables::lemma_first_index_push(
                        file_names(before),
                        file_path@,
                        name,
                    );
                }
                assert forall|i: int, j: int|
                    0 <= i < file_names(after).len() && 0 <= j < file_names(after).len() && i
                        != j implies file_names(after)[i] != file_names(after)[j] by {
                    if i < before.len() && j < before.len() {
                        assert(file_names(before)[i] != file_names(before)[j]);
                    } else if i < before.len() {
                        assert(file_names(before).contains(file_names(before)[i]));
                    } else {
                        assert(file_names(before).contains(file_names(before)[j]));
                    }
                }
                assert forall|i: int| 0 <= i < after.len() implies source_blob(#[trigger] after[i])
                    is Some by {
                    if i < before.len() {
                        assert(after[i] == before[i]);
                    }
                }
            }
        }
        Ok(())
    }

    /// Takes the file `file_path` out of the store; a store that has no
    /// such file is left as it was.
    pub fn delete_document_mut(&mut self, file_path: &str)
        requires
            old(self).wf(),
        ensures
            final(self).wf(),
            record_index(final(self)@, file_path@) == final(self)@.len(),
            forall|name: Seq<char>|
                name != file_path@ && record_index(old(self)@, name) < old(self)@.len()
                    ==> record_index(final(self)@, name) < final(self)@.len(),
            ({
                let place = record_index(old(self)@, file_path@);
                if place < old(self)@.len() {
                    final(self)@ == old(self)@.remove(place as int)
                } else {
                    final(self)@ == old(self)@
                }
            }),
            final(self).files() == after_delete(old(self).files(), file_path@),
    {
        proof {
            lemma_names_of_files(self@);
        }
        let place = self.find_record(file_path);
        if place < self.records.len() {
            let ghost before = self@;
            let _ = self.records.remove(place);
            proof {
                let after = self@;
                assert(after =~= before.remove(place as int));
                assert(file_names(after) =~= file_names(before).remove(place as int));
                crate::style_tables::lemma_first_index(file_names(after), file_path@);
                assert forall|name: Seq<char>|
                    name != file_path@ && record_index(before, name) < before.len() implies record_index(
                    after,
                    name,
                ) < after.len() by {
                    crate::style_tables::lemma_first_index(file_names(before), name);
                    crate::style_tables::lemma_first_index(file_names(after), name);
                    let k = record_index(before, name) as int;
                    assert(k != place);
                    let a = if k < place { k } else { k - 1 };
                    assert(file_names(after)[a] == name);
                }
                if file_names(after).contains(file_path@) {
                    let k = choose|k: int|
                        0 <= k < file_names(after).len() && file_names(after)[k] == file_path@;
                    let a = if k < place { k } else { k + 1 };
                    assert(file_names(before)[a] == file_names(before)[place as int]);
                }
                assert forall|i: int, j: int|
                    0 <= i < file_names(after).len() && 0 <= j < file_names(after).len() && i
                        != j implies file_names(after)[i] != file_names(after)[j] by {
                    let a = if i < place { i } else { i + 1 };
                    let b = if j < place { j } else { j + 1 };
                    assert(file_names(before)[a] != file_names(before)[b]);
                }
                assert forall|i: int| 0 <= i < after.len() implies source_blob(#[trigger] after[i])
                    is Some by {
                    let a = if i < place { i } else { i + 1 };
                    assert(after[i] == before[a]);
                }
            }
        }
    }

    /// Save Current Document to final result
    ///
    /// The archive of the package: it holds every file of the store, under
    /// its name and with its bytes, in the order of the store. It is
    /// given exactly where the bytes of every file can be decompressed
    /// and the files can be written into an archive. A file whose bytes
    /// cannot be decompressed is reported as a failure of the codec, and
    /// files that cannot be written into an archive as a failure of the
    /// package.
    pub fn save_as(&self) -> (res: Result<Vec<u8>, OfficeError>)
        requires
            self.wf(),
        ensures
            match res {
                Ok(bytes) => entry_count(bytes@) == Some(self@.len()) && forall|i: int|
                    0 <= i < self@.len() ==> payload(#[trigger] self@[i]) is Some && entry_at(
                        bytes@,
                        i as nat,
                    ) == Some((self@[i].file_name, payload(self@[i])->0)),
                Err(e) => e == OfficeError::Codec || e == OfficeError::PackageIo,
            },
            (exists|i: int| 0 <= i < self@.len() && payload(#[trigger] self@[i]) is None) <==> res
                == Err::<Vec<u8>, OfficeError>(OfficeError::Codec),
            res is Ok <==> (forall|i: int| 0 <= i < self@.len() ==> payload(#[trigger] self@[i])
                is Some) && can_archive(stored_entries(self@)),
    {
        self.save_database_into_archive()
    }

    /// The archive of the records of the store: every file under its name
    /// and with its bytes, in the order of the records.
    fn save_database_into_archive(&self) -> (res: Result<Vec<u8>, OfficeError>)
        requires
            self.wf(),
        ensures
            match res {
                Ok(bytes) => entry_count(bytes@) == Some(self@.len()) && forall|i: int|
                    0 <= i < self@.len() ==> payload(#[trigger] self@[i]) is Some && entry_at(
                        bytes@,
                        i as nat,
                    ) == Some((self@[i].file_name, payload(self@[i])->0)),
                Err(e) => e == OfficeError::Codec || e == OfficeError::PackageIo,
            },
            (exists|i: int| 0 <= i < self@.len() && payload(#[trigger] self@[i]) is None) <==> res
                == Err::<Vec<u8>, OfficeError>(OfficeError::Codec),
            res is Ok <==> (forall|i: int| 0 <= i < self@.len() ==> payload(#[trigger] self@[i])
                is Some) && can_archive(stored_entries(self@)),
    {
        let mut entries: Vec<(String, Vec<u8>)> = Vec::new();
        let mut i: usize = 0;
        while i < self.records.len()
            invariant
                i <= self.records.len(),
                entries.len() == i,
                forall|k: int|
                    0 <= k < i ==> payload(#[trigger] self@[k]) is Some && entries_view(entries@)[k]
                        == (self@[k].file_name, payload(self@[k])->0),
            decreases self.records.len() - i,
        {
            let record = &self.records[i];
            assert(record@ == self@[i as int]);
            let plain = match &record.tree_content {
                Some(xml_tree_compressed) => decompress_content(xml_tree_compressed.as_slice()),
                None => match &record.file_content {
                    Some(xml_content_compressed) => decompress_content(
                        xml_content_compressed.as_slice(),
                    ),
                    None => Err(OfficeError::Codec),
                },
            };
            let plain = match plain {
                Ok(plain) => plain,
                Err(e) => {
                    assert(payload(self@[i as int]) is None);
                    return Err(OfficeError::Codec);
                },
            };
            let ghost before = entries_view(entries@);
            entries.push((record.file_name.clone(), plain));
            proof {
                assert forall|k: int| 0 <= k < i + 1 implies payload(#[trigger] self@[k]) is Some
                    && entries_view(entries@)[k] == (self@[k].file_name, payload(self@[k])->0) by {
                    if k < i {
                        assert(entries_view(entries@)[k] == before[k]);
                    }
                }
            }
            i += 1;
        }
        assert(entries_view(entries@) =~= stored_entries(self@));
        match write_archive(&entries) {
            Ok(bytes) => {
                proof {
                    assert forall|k: int| 0 <= k < self@.len() implies entry_at(
                        bytes@,
                        k as nat,
                    ) == Some((self@[k].file_name, payload(#[trigger] self@[k])->0)) by {
                        assert(entry_at(bytes@, k as nat) == Some(entries_view(entries@)[k]));
                    }
                }
                Ok(bytes)
            },
            Err(e) => Err(e),
        }
    }

    /// Loads the entries of an archive into the store, which has no record
    /// yet: each entry becomes a record that keeps the entry's data
    /// compressed.
    fn load_archive_into_database(&mut self, archive: Vec<u8>) -> (res: Result<(), OfficeError>)
        requires
            old(self)@.len() == 0,
            old(self).next_record_id() == 1,
        ensures
            match res {
                Ok(_) => final(self).wf() && is_readable(archive@) && entry_count(archive@) == Some(
                    final(self)@.len(),
                ) && forall|i: int|
                    0 <= i < final(self)@.len() ==> (#[trigger] final(self)@[i]).tree_content
                        is None && entry_at(archive@, i as nat) == Some(
                        (final(self)@[i].file_name, payload(final(self)@[i])->0),
                    ) && payload(final(self)@[i]) is Some,
                Err(e) => (e == OfficeError::PackageIo || e == OfficeError::Codec) && (
                !is_readable(archive@) ==> e == OfficeError::PackageIo),
            },
            match res {
                Ok(_) => loaded(archive@) == Ok::<Seq<FileModel>, OfficeError>(final(self).files()),
                Err(e) => loaded(archive@) == Err::<Seq<FileModel>, OfficeError>(e),
            },
            final(self).in_memory() == old(self).in_memory(),
            res is Ok ==> final(self).next_record_id() == counted_id(final(self)@.len()) && forall|
                i: int,
            |
                0 <= i < final(self)@.len() ==> is_loaded_record(
                    #[trigger] final(self)@[i],
                    i as nat,
                ),
    {
        let entries = match read_archive(archive) {
            Ok(entries) => entries,
            Err(e) => {
                return Err(e);
            },
        };
        let ghost all = entries_view(entries@);
        let mut i: usize = 0;
        while i < entries.len()
            invariant
                i <= entries.len(),
                all == entries_view(entries@),
                is_readable(archive@),
                reads_back(archive@, all),
                self@.len() == i,
                records_wf(self@),
                forall|k: int|
                    0 <= k < i ==> (#[trigger] self@[k]).tree_content is None && payload(self@[k])
                        == Some(all[k].1) && self@[k].file_name == all[k].0 && self@[k].content_type
                        == unknown_content_type(),
                load_fault(all.take(i as int)) is None,
                self.in_memory() == old(self).in_memory(),
                self.next_record_id() == counted_id(i as nat),
                forall|k: int| 0 <= k < i ==> is_loaded_record(#[trigger] self@[k], k as nat),
            decreases entries.len() - i,
        {
            let name = &entries[i].0;
            let place = self.find_record(name.as_str());
            proof {
                let front = all.take(i + 1);
                assert(front.drop_last() =~= all.take(i as int));
                assert(front.last() == all[i as int]);
                assert(file_names(self@) =~= entry_names(all.take(i as int)));
                crate::style_tables::lemma_first_index(file_names(self@), name@);
                assert(archive_entries(archive@) =~= all);
                lemma_load_fault_prefix(all, i + 1);
            }
            if place < self.records.len() {
                return Err(OfficeError::PackageIo);
            }
            let compressed = match compress_content(entries[i].1.as_slice()) {
                Ok(compressed) => compressed,
                Err(e) => {
                    return Err(e);
                },
            };
            let id = self.next_id;
            self.next_id = if id < 0xffff_ffff {
                id + 1
            } else {
                id
            };
            let ghost before = self@;
            let record = ArchiveRecordModel {
                id,
                file_name: name.clone(),
                content_type: unknown_type().to_owned(),
                compressed_file_size: compressed.len(),
                uncompressed_file_size: entries[i].1.len(),
                compression_level: 1,
                compression_type: "gzip".to_owned(),
                file_content: Some(compressed),
                tree_content: None,
            };
            self.records.push(record);
            proof {
                let after = self@;
                crate::style_tables::lemma_first_index(file_names(before), name@);
                assert(after =~= before.push(record@));
                assert(file_names(after) =~= file_names(before).push(name@));
                assert forall|a: int, b: int|
                    0 <= a < file_names(after).len() && 0 <= b < file_names(after).len() && a
                        != b implies file_names(after)[a] != file_names(after)[b] by {
                    if a < before.len() && b < before.len() {
                        assert(file_names(before)[a] != file_names(before)[b]);
                    } else if a < before.len() {
                        assert(file_names(before).contains(file_names(before)[a]));
                    } else {
                        assert(file_names(before).contains(file_names(before)[b]));
                    }
                }
                assert forall|k: int| 0 <= k < after.len() implies source_blob(#[trigger] after[k])
                    is Some by {
                    if k < before.len() {
                        assert(after[k] == before[k]);
                    }
                }
                assert forall|k: int| 0 <= k < i + 1 implies (#[trigger] after[k]).tree_content
                    is None && payload(after[k]) == Some(all[k].1) && after[k].file_name
                    == all[k].0 && after[k].content_type == unknown_content_type() by {
                    if k < i {
                        assert(after[k] == before[k]);
                    }
                }
                assert forall|k: int| 0 <= k < i + 1 implies is_loaded_record(
                    #[trigger] after[k],
                    k as nat,
                ) by {
                    if k < i {
                        assert(after[k] == before[k]);
                    } else {
                        reveal_strlit("gzip");
                    }
                }
            }
            i += 1;
        }
        proof {
            assert(self.files() =~= archive_files(archive@));
            assert(all.take(i as int) =~= all);
            assert(archive_entries(archive@) =~= all);
        }
        Ok(())
    }
}

} // verus!
