//! A spreadsheet package as a whole: the store of its files, the
//! relationships of the package, the content types, and the workbook.

use vstd::prelude::*;
use crate::content_types::{ContentTypeTable, ContentTypesPart};
use crate::element_dictionary::{content_types_content, relationships_content, worksheet_content};
use crate::error::OfficeError;
use crate::numbering::{lemma_first_free, names_view};
use crate::office_document::{FileModel, OfficeDocument, lemma_names_of_files, unknown_type};
use crate::package_state::{
    PackageModel, TypesModel, archive_fault, closed_package, file_entries, created_package,
    held_parts, is_archive_of, manifest_written, new_sheet_path, opened_archive, path_of_part,
    sheet_added, with_parts, with_sheets, with_styles, written_types,
};
use crate::relations::RelationsPart;
use crate::style_models::{StyleId, StyleSetting};
use crate::text::{chars_of, has_suffix, str_eq, string_of, string_of_range};
use crate::workbook::{WorkbookPart, activated, hidden, renamed};
use crate::workbook_model::sheet_names;
use crate::worksheet::WorkSheetPart;
use crate::xml_tree::pairs_view;

verus! {

/// A spreadsheet package that is open: its files, the relationships of
/// the package, its content types and its workbook.
#[derive(Debug)]
pub struct Excel {
    office_document: OfficeDocument,
    root_relations: RelationsPart,
    content_types: ContentTypeTable,
    workbook: WorkbookPart,
}

impl Excel {
    /// The store of the package's files.
    pub closed spec fn store(&self) -> OfficeDocument {
        self.office_document
    }

    /// The relationships of the package.
    pub closed spec fn relations(&self) -> RelationsPart {
        self.root_relations
    }

    /// The content types of the package.
    pub closed spec fn types(&self) -> TypesModel {
        TypesModel {
            extensions: pairs_view(self.content_types.extensions@),
            overrides: pairs_view(self.content_types.overrides@),
        }
    }

    /// The workbook's part.
    pub closed spec fn workbook(&self) -> WorkbookPart {
        self.workbook
    }

    /// The package as plain values.
    pub open spec fn state(&self) -> PackageModel {
        PackageModel {
            files: self.store().files(),
            relations: self.relations()@,
            types: self.types(),
            workbook: self.workbook().state(),
        }
    }

    /// The invariant of the package: that of its store, of its
    /// relationships and of its workbook; and the workbook is not the file
    /// of the package's relationships.
    pub open spec fn wf(&self) -> bool {
        &&& self.store().wf()
        &&& self.relations().wf()
        &&& self.workbook().wf()
        &&& self.workbook().path() != self.relations()@.file_path
    }

    /// The package that the archive `archive` holds, opened as
    /// `opened_archive` says; where no archive is given, the package of a
    /// new workbook with one sheet, as `created_package` says. Bytes that
    /// are no archive, and an archive that holds two files of one name,
    /// are a failure of the package.
    pub fn new(archive: Option<Vec<u8>>) -> (res: Result<Self, OfficeError>)
        ensures
            ({
                let outcome = match archive {
                    Some(bytes) => opened_archive(bytes@),
                    None => created_package(),
                };
                match res {
                    Ok(excel) => excel.wf() && outcome == Ok::<PackageModel, OfficeError>(
                        excel.state(),
                    ),
                    Err(e) => outcome == Err::<PackageModel, OfficeError>(e),
                }
            }),
    {
        let is_new = archive.is_none();
        let mut office_document = match OfficeDocument::new(archive, true) {
            Ok(store) => store,
            Err(e) => {
                return Err(e);
            },
        };
        let ghost files = office_document.files();
        proof {
            lemma_names_of_files(office_document@);
        }
        let mut content_types = ContentTypeTable::new();
        match office_document.get_xml_tree("[Content_Types].xml") {
            Ok(Some(manifest)) => {
                proof {
                    manifest@.lemma_root_pruned("Default"@);
                }
                let mut part = ContentTypesPart::from_document(manifest);
                match part.get_extensions() {
                    Ok(Some(extensions)) => {
                        content_types.extensions = extensions;
                    },
                    Ok(None) => {
                        assert(pairs_view(content_types.extensions@) =~= crate::content_types::read_pairs(
                            crate::workbook_store::children_of(manifest@.root_tree()),
                            "Default"@,
                            "Extension"@,
                            "ContentType"@,
                        )->0);
                    },
                    Err(e) => {
                        return Err(e);
                    },
                }
                match part.get_overrides() {
                    Ok(overrides) => {
                        content_types.overrides = overrides;
                    },
                    Err(e) => {
                        return Err(e);
                    },
                }
            },
            Ok(None) => {},
            Err(e) => {
                return Err(e);
            },
        }
        let mut root_relations = match RelationsPart::open(&mut office_document, "_rels/.rels") {
            Ok(part) => part,
            Err(e) => {
                return Err(e);
            },
        };
        let workbook = match WorkbookPart::new(&mut office_document, &mut root_relations) {
            Ok(part) => part,
            Err(e) => {
                return Err(e);
            },
        };
        if str_eq(workbook.get_file_path(), root_relations.get_file_path()) {
            return Err(OfficeError::Schema);
        }
        let mut excel = Self { office_document, root_relations, content_types, workbook };
        if is_new {
            proof {
                lemma_first_free("Sheet"@, sheet_names(excel.workbook()@.sheets), 1);
            }
            match excel.add_sheet(None) {
                Ok(_) => {},
                Err(e) => {
                    return Err(e);
                },
            }
        }
        Ok(excel)
    }

    /// Adds a sheet to the workbook as `WorkbookPart::add_sheet_mut` does,
    /// and puts the file of a new worksheet into the store for it. Gives
    /// the path of that file. A name that a sheet of the workbook has
    /// already is refused, and so is a worksheet whose text cannot be
    /// compressed; nothing is changed then.
    pub fn add_sheet(&mut self, sheet_name: Option<String>) -> (res: Result<String, OfficeError>)
        requires
            old(self).wf(),
        ensures
            final(self).wf(),
            match sheet_added(old(self).state(), crate::xml_tree::opt_text(sheet_name)) {
                Ok(package) => (res matches Ok(path) && path@ == new_sheet_path(
                    old(self).state().workbook.workbook,
                )) && final(self).state() == package,
                Err(e) => res == Err::<String, OfficeError>(e) && final(self).state() == old(self).state(),
            },
    {
        let taken = match &sheet_name {
            Some(name) => self.workbook.has_sheet_named(name.as_str()),
            None => false,
        };
        if taken {
            return Err(OfficeError::Conflict);
        }
        proof {
            lemma_first_free("Sheet"@, sheet_names(self.workbook()@.sheets), 1);
        }
        let path = self.workbook.next_sheet_path();
        let sheet = WorkSheetPart::initialize_content_xml();
        match self.office_document.close_xml_document(
            path.as_str(),
            &sheet,
            worksheet_content().content_type,
        ) {
            Ok(_) => {},
            Err(e) => {
                return Err(e);
            },
        }
        match self.workbook.add_sheet_mut(sheet_name) {
            Ok(part) => Ok(part.get_file_name().to_owned()),
            Err(e) => Err(e),
        }
    }

    /// The names of the sheets, in the order of their tabs.
    pub fn list_sheet_names(&self) -> (res: Result<Vec<String>, OfficeError>)
        ensures
            res matches Ok(names) && names_view(names@) == sheet_names(
                self.state().workbook.workbook.sheets,
            ),
    {
        self.workbook.list_sheet_names()
    }

    /// The sheet named `sheet_name` becomes the active one, and every
    /// other sheet is no longer active. A name that no sheet has is not
    /// found, and nothing is changed.
    pub fn set_active_sheet(&mut self, sheet_name: &str) -> (res: Result<(), OfficeError>)
        requires
            old(self).wf(),
        ensures
            final(self).wf(),
            ({
                let before = old(self).state();
                if before.workbook.workbook.has_sheet(sheet_name@) {
                    res is Ok && final(self).state() == with_sheets(
                        before,
                        activated(before.workbook.workbook.sheets, sheet_name@),
                    )
                } else {
                    res == Err::<(), OfficeError>(OfficeError::NotFound) && final(self).state()
                        == before
                }
            }),
    {
        self.workbook.set_active_sheet_mut(sheet_name)
    }

    /// The sheet named `sheet_name` is hidden, and every other sheet is
    /// left as it was. A name that no sheet has is not found, and nothing
    /// is changed.
    pub fn hide_sheet(&mut self, sheet_name: &str) -> (res: Result<(), OfficeError>)
        requires
            old(self).wf(),
        ensures
            final(self).wf(),
            ({
                let before = old(self).state();
                if before.workbook.workbook.has_sheet(sheet_name@) {
                    res is Ok && final(self).state() == with_sheets(
                        before,
                        hidden(before.workbook.workbook.sheets, sheet_name@),
                    )
                } else {
                    res == Err::<(), OfficeError>(OfficeError::NotFound) && final(self).state()
                        == before
                }
            }),
    {
        self.workbook.hide_sheet_mut(sheet_name)
    }

    /// Gives the sheet named `old_sheet_name` the name `new_sheet_name`.
    /// A new name that a sheet has already is a conflict, and an old name
    /// that no sheet has is not found; nothing is changed then.
    pub fn rename_sheet(&mut self, old_sheet_name: &str, new_sheet_name: &str) -> (res: Result<
        (),
        OfficeError,
    >)
        requires
            old(self).wf(),
        ensures
            final(self).wf(),
            ({
                let before = old(self).state();
                if before.workbook.workbook.has_sheet(new_sheet_name@) {
                    res == Err::<(), OfficeError>(OfficeError::Conflict) && final(self).state()
                        == before
                } else if !before.workbook.workbook.has_sheet(old_sheet_name@) {
                    res == Err::<(), OfficeError>(OfficeError::NotFound) && final(self).state()
                        == before
                } else {
                    res is Ok && final(self).state() == with_sheets(
                        before,
                        renamed(before.workbook.workbook.sheets, old_sheet_name@, new_sheet_name@),
                    )
                }
            }),
    {
        self.workbook.rename_sheet_name_mut(old_sheet_name, new_sheet_name)
    }

    /// The id of the style that `style_setting` asks for, as
    /// `StylePart::get_style_id_mut` gives it: the style tables grow by
    /// what they did not hold of the setting.
    pub fn style_for(&mut self, style_setting: StyleSetting) -> (res: Result<StyleId, OfficeError>)
        requires
            old(self).wf(),
        ensures
            final(self).wf(),
            match old(self).state().workbook.styles.style_outcome(style_setting@) {
                Ok((tables, id)) => res == Ok::<StyleId, OfficeError>(StyleId { id }) && final(self).state() == with_styles(old(self).state(), tables),
                Err(e) => res == Err::<StyleId, OfficeError>(e) && final(self).state() == old(self).state(),
            },
    {
        self.workbook.style_for(style_setting)
    }

    /// Writes the content types of the package into the store: every file
    /// of the store that has a content type of its own is named with it,
    /// no part is named that the store does not have, and the extensions
    /// of relationship files and of XML files have their content types.
    fn write_content_types(&mut self) -> (res: Result<(), OfficeError>)
        requires
            old(self).wf(),
        ensures
            final(self).wf(),
            match res {
                Ok(_) => manifest_written(old(self).state()) == Ok::<PackageModel, OfficeError>(
                    final(self).state(),
                ),
                Err(e) => manifest_written(old(self).state()) == Err::<PackageModel, OfficeError>(e),
            },
    {
        let ghost files = self.store().files();
        let ghost types = self.types();
        proof {
            lemma_names_of_files(self.store()@);
        }
        let mut i: usize = 0;
        let count = self.office_document.get_connection().len();
        assert(files.take(0) =~= Seq::<FileModel>::empty());
        while i < count
            invariant
                i <= count,
                self.wf(),
                count == files.len(),
                files == self.store().files(),
                self.workbook() == old(self).workbook(),
                self.relations() == old(self).relations(),
                self.store() == old(self).store(),
                self.types().extensions == types.extensions,
                self.types().overrides == with_parts(types.overrides, files.take(i as int)),
            decreases count - i,
        {
            let record = &self.office_document.get_connection()[i];
            let name = record.file_name.as_str();
            let content_type = record.content_type.as_str();
            proof {
                let front = files.take(i + 1);
                assert(front.drop_last() =~= files.take(i as int));
                assert(front.last() == files[i as int]);
                assert(files[i as int].name == name@);
                assert(files[i as int].content_type == content_type@);
            }
            if !(has_suffix(name, ".rels") || str_eq(name, "[Content_Types].xml") || str_eq(
                content_type,
                unknown_type(),
            )) {
                self.content_types.add_override(name, content_type);
            }
            i += 1;
        }
        assert(files.take(i as int) =~= files);
        let ghost named = self.types().overrides;
        let mut kept: Vec<(String, String)> = Vec::new();
        let mut j: usize = 0;
        let listed = self.content_types.overrides.len();
        assert(pairs_view(kept@) =~= held_parts(named.take(0), files));
        while j < listed
            invariant
                j <= listed,
                self.wf(),
                listed == self.content_types.overrides.len(),
                files == self.store().files(),
                named == self.types().overrides,
                named == with_parts(types.overrides, files),
                self.types().extensions == types.extensions,
                self.workbook() == old(self).workbook(),
                self.relations() == old(self).relations(),
                self.store() == old(self).store(),
                pairs_view(kept@) == held_parts(named.take(j as int), files),
            decreases listed - j,
        {
            let part_name = chars_of(self.content_types.overrides[j].0.as_str());
            let path = if part_name.len() > 0 && part_name[0] == '/' {
                string_of_range(&part_name, 1, part_name.len())
            } else {
                string_of(&part_name)
            };
            proof {
                let front = named.take(j + 1);
                assert(front.drop_last() =~= named.take(j as int));
                assert(front.last() == named[j as int]);
                assert(path@ == path_of_part(named[j as int].0));
                lemma_names_of_files(self.store()@);
            }
            if self.office_document.has_file_named(path.as_str()) {
                let ghost before = pairs_view(kept@);
                kept.push(
                    (
                        self.content_types.overrides[j].0.clone(),
                        self.content_types.overrides[j].1.clone(),
                    ),
                );
                assert(pairs_view(kept@) =~= before.push(named[j as int]));
            }
            j += 1;
        }
        assert(named.take(j as int) =~= named);
        self.content_types.overrides = kept;
        self.content_types.ensure_default("rels", relationships_content().content_type);
        self.content_types.ensure_default("xml", content_types_content().content_type);
        assert(self.types() == written_types(types, files));
        let manifest = ContentTypesPart::create_xml_document(
            &self.content_types.extensions,
            &self.content_types.overrides,
        );
        self.office_document.close_xml_document(
            "[Content_Types].xml",
            &manifest,
            content_types_content().content_type,
        )
    }

    /// Save Current Document to final result
    ///
    /// Closes the package as `closed_package` says: the workbook and what
    /// belongs to it, the relationships of the package and the content
    /// types are written into the store. Gives the archive of the
    /// package: it holds every file of the store, under its name and with
    /// its bytes, in the order of the store. Where the package is closed
    /// and cannot be written into an archive, the failure is what
    /// `archive_fault` says.
    pub fn save_as(&mut self) -> (res: Result<Vec<u8>, OfficeError>)
        requires
            old(self).wf(),
        ensures
            final(self).wf(),
            match closed_package(old(self).state()) {
                Ok(package) => final(self).state() == package && match res {
                    Ok(bytes) => archive_fault(package.files) is None && is_archive_of(
                        bytes@,
                        package.files,
                    ),
                    Err(e) => archive_fault(package.files) == Some(e),
                },
                Err(fault) => res == Err::<Vec<u8>, OfficeError>(fault),
            },
    {
        match self.workbook.close_document(&mut self.office_document) {
            Ok(_) => {},
            Err(e) => {
                return Err(e);
            },
        }
        match self.root_relations.close_document(&mut self.office_document) {
            Ok(_) => {},
            Err(e) => {
                return Err(e);
            },
        }
        match self.write_content_types() {
            Ok(_) => {},
            Err(e) => {
                return Err(e);
            },
        }
        proof {
            let records = self.store()@;
            let files = self.store().files();
            assert(file_entries(files) =~= crate::office_document::stored_entries(records));
            assert((exists|i: int| 0 <= i < files.len() && (#[trigger] files[i]).bytes is None)
                <==> (exists|i: int|
                0 <= i < records.len() && crate::office_document::payload(#[trigger] records[i])
                    is None)) by {
                if exists|i: int| 0 <= i < files.len() && (#[trigger] files[i]).bytes is None {
                    let i = choose|i: int| 0 <= i < files.len() && (#[trigger] files[i]).bytes
                        is None;
                    assert(crate::office_document::payload(records[i]) is None);
                }
                if exists|i: int|
                    0 <= i < records.len() && crate::office_document::payload(
                        #[trigger] records[i],
                    ) is None {
                    let i = choose|i: int|
                        0 <= i < records.len() && crate::office_document::payload(
                            #[trigger] records[i],
                        ) is None;
                    assert(files[i].bytes is None);
                }
            }
        }
        self.office_document.save_as()
    }
}

} // verus!
