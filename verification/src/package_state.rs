//! A package as plain values, and what opening it, adding a sheet to it
//! and closing it make of it.

use vstd::prelude::*;
use crate::archive::{can_archive, entry_at, entry_count};
use crate::content_types::{part_name, read_pairs, types_node, with_pair};
use crate::element_dictionary::{
    content_types_content_spec, relationships_content_spec, workbook_content_spec,
    worksheet_content_spec,
};
use crate::error::OfficeError;
use crate::numbering::next_name;
use crate::office_document::{
    FileModel, after_read, after_write, can_read, holds_file, keepable, loaded, root_of,
    unknown_content_type,
};
use crate::part_store::{closed_relations, opened_relations};
use crate::relations::{
    RelationsModel, ids_of, new_part_path, new_relationship, next_relationship_id,
};
use crate::style_tables::StyleModel;
use crate::text::ends_with;
use crate::workbook::sheet_file_name;
use crate::workbook_model::{SheetModel, WorkbookModel, sheet_names};
use crate::workbook_store::{
    WorkbookState, children_of, closed_workbook, closed_workbook_relations, leading_to,
    opened_workbook,
};
use crate::worksheet::new_worksheet_node;
use crate::xml_node::Node;
use crate::xml_prune::pruned_root;
use crate::xml_tree::attribute_in;

verus! {

/// The content types of a package: which content type goes with which
/// extension, and which with which part.
pub struct TypesModel {
    pub extensions: Seq<(Seq<char>, Seq<char>)>,
    pub overrides: Seq<(Seq<char>, Seq<char>)>,
}

/// A package as plain values.
pub struct PackageModel {
    /// The files of the package.
    pub files: Seq<FileModel>,
    /// The relationships of the package.
    pub relations: RelationsModel,
    pub types: TypesModel,
    pub workbook: WorkbookState,
}

/// The name of the manifest of content types.
pub open spec fn manifest_name() -> Seq<char> {
    "[Content_Types].xml"@
}

/// The name of the file of the package's relationships.
pub open spec fn package_relations_name() -> Seq<char> {
    "_rels/.rels"@
}

/// The content types that a manifest with the root's subtree `root`
/// names. A manifest in which an extension or a part lacks its name or its
/// content type is a failure of the schema.
pub open spec fn manifest_types(root: Option<Node>) -> Result<TypesModel, OfficeError> {
    match read_pairs(children_of(root), "Default"@, "Extension"@, "ContentType"@) {
        Some(extensions) => match read_pairs(
            children_of(pruned_root(root, "Default"@)),
            "Override"@,
            "PartName"@,
            "ContentType"@,
        ) {
            Some(overrides) => Ok(TypesModel { extensions, overrides }),
            None => Err(OfficeError::Schema),
        },
        None => Err(OfficeError::Schema),
    }
}

/// The content types that the manifest of a package names; none where the
/// package has no manifest.
pub open spec fn opened_types(files: Seq<FileModel>) -> Result<TypesModel, OfficeError> {
    if holds_file(files, manifest_name()) {
        if can_read(files, manifest_name()) {
            manifest_types(root_of(files, manifest_name()))
        } else {
            Err(OfficeError::Codec)
        }
    } else {
        Ok(TypesModel { extensions: Seq::empty(), overrides: Seq::empty() })
    }
}

/// What opening the package with the files `files` gives: the content
/// types are read from the manifest, the relationships of the package
/// from their file, and the workbook is opened as `opened_workbook` says.
/// A package whose workbook is the file of its own relationships is a
/// failure of the schema.
pub open spec fn opened_package(files: Seq<FileModel>) -> Result<PackageModel, OfficeError> {
    match opened_types(files) {
        Ok(types) => match opened_relations(
            after_read(files, manifest_name()),
            package_relations_name(),
        ) {
            Ok((relations, with_relations)) => match opened_workbook(with_relations, relations) {
                Ok((workbook, with_workbook)) => if workbook.path == relations.file_path {
                    Err(OfficeError::Schema)
                } else {
                    Ok(
                        PackageModel {
                            files: with_workbook,
                            relations: leading_to(relations, workbook_content_spec()),
                            types,
                            workbook,
                        },
                    )
                },
                Err(e) => Err(e),
            },
            Err(e) => Err(e),
        },
        Err(e) => Err(e),
    }
}

/// The name of a new sheet: the one asked for, or `Sheet` with the least
/// positive number that makes a name which no sheet has.
pub open spec fn new_sheet_name(workbook: WorkbookModel, name: Option<Seq<char>>) -> Seq<char> {
    match name {
        Some(n) => n,
        None => next_name("Sheet"@, sheet_names(workbook.sheets)),
    }
}

/// The path of the file of the next new worksheet of a workbook.
pub open spec fn new_sheet_path(workbook: WorkbookModel) -> Seq<char> {
    new_part_path(
        worksheet_content_spec(),
        None,
        Some(sheet_file_name(workbook.sheets.len() + 1)),
    )
}

/// What a workbook has in memory after a sheet has been added to it: the
/// sheet stands behind the others, neither active nor hidden, and a
/// relationship to the file of its worksheet stands behind the workbook's
/// other relationships.
pub open spec fn workbook_with_sheet(workbook: WorkbookState, name: Option<Seq<char>>)
    -> WorkbookState {
    WorkbookState {
        workbook: WorkbookModel {
            sheets: workbook.workbook.sheets.push(
                SheetModel {
                    name: new_sheet_name(workbook.workbook, name),
                    relationship_id: next_relationship_id(ids_of(workbook.relations.relationships)),
                    is_active: false,
                    is_hidden: false,
                },
            ),
            ..workbook.workbook
        },
        relations: RelationsModel {
            relationships: workbook.relations.relationships.push(
                new_relationship(
                    ids_of(workbook.relations.relationships),
                    worksheet_content_spec(),
                    None,
                    Some(sheet_file_name(workbook.workbook.sheets.len() + 1)),
                ),
            ),
            ..workbook.relations
        },
        ..workbook
    }
}

/// The package after a sheet has been added to its workbook: the
/// workbook has the sheet, and the package has the file of a new
/// worksheet for it.
pub open spec fn with_sheet(package: PackageModel, name: Option<Seq<char>>) -> PackageModel {
    PackageModel {
        files: after_write(
            package.files,
            new_sheet_path(package.workbook.workbook),
            Some(new_worksheet_node()),
            worksheet_content_spec().content_type@,
        ),
        workbook: workbook_with_sheet(package.workbook, name),
        ..package
    }
}

/// Whether the archive with the bytes `bytes` holds exactly the files
/// `files`, each under its name and with its bytes, in their order.
pub open spec fn is_archive_of(bytes: Seq<u8>, files: Seq<FileModel>) -> bool {
    &&& entry_count(bytes) == Some(files.len())
    &&& forall|i: int|
        0 <= i < files.len() ==> (#[trigger] files[i]).bytes is Some && entry_at(bytes, i as nat)
            == Some((files[i].name, files[i].bytes->0))
}

/// The entries that files stand for in an archive: each file under its
/// name and with its bytes, in their order.
pub open spec fn file_entries(files: Seq<FileModel>) -> Seq<(Seq<char>, Seq<u8>)> {
    Seq::new(files.len(), |i: int| (files[i].name, files[i].bytes->0))
}

/// What keeps files from being written into an archive, if anything
/// does: a file without bytes is a failure of the codec, and files that
/// the writer of archives does not take are a failure of the package.
pub open spec fn archive_fault(files: Seq<FileModel>) -> Option<OfficeError> {
    if exists|i: int| 0 <= i < files.len() && (#[trigger] files[i]).bytes is None {
        Some(OfficeError::Codec)
    } else if !can_archive(file_entries(files)) {
        Some(OfficeError::PackageIo)
    } else {
        None
    }
}

/// The package with the sheets `sheets` in the place of the sheets of its
/// workbook.
pub open spec fn with_sheets(package: PackageModel, sheets: Seq<SheetModel>) -> PackageModel {
    PackageModel {
        workbook: WorkbookState {
            workbook: WorkbookModel { sheets, ..package.workbook.workbook },
            ..package.workbook
        },
        ..package
    }
}

/// The package with the style tables `styles` in the place of those of
/// its workbook.
pub open spec fn with_styles(package: PackageModel, styles: StyleModel) -> PackageModel {
    PackageModel { workbook: WorkbookState { styles, ..package.workbook }, ..package }
}

/// Whether a file of the package is named in the manifest as a part with
/// a content type of its own: relationship files and the manifest are
/// not, nor is a file of which no content type is known.
pub open spec fn is_named_part(file: FileModel) -> bool {
    !(ends_with(file.name, ".rels"@) || file.name == manifest_name() || file.content_type
        == unknown_content_type())
}

/// The parts `overrides` with each of `files` that is named as a part
/// given its content type, in the order of the files.
pub open spec fn with_parts(overrides: Seq<(Seq<char>, Seq<char>)>, files: Seq<FileModel>) -> Seq<
    (Seq<char>, Seq<char>),
>
    decreases files.len(),
{
    if files.len() == 0 {
        overrides
    } else if is_named_part(files.last()) {
        with_pair(
            with_parts(overrides, files.drop_last()),
            part_name(files.last().name),
            files.last().content_type,
        )
    } else {
        with_parts(overrides, files.drop_last())
    }
}

/// The path of the file that a part's name in the manifest stands for:
/// the name without the slash before it.
pub open spec fn path_of_part(name: Seq<char>) -> Seq<char> {
    if name.len() > 0 && name[0] == '/' {
        name.subrange(1, name.len() as int)
    } else {
        name
    }
}

/// Those of the parts `overrides` whose file is among `files`, in their
/// order.
pub open spec fn held_parts(overrides: Seq<(Seq<char>, Seq<char>)>, files: Seq<FileModel>) -> Seq<
    (Seq<char>, Seq<char>),
>
    decreases overrides.len(),
{
    if overrides.len() == 0 {
        overrides
    } else if holds_file(files, path_of_part(overrides.last().0)) {
        held_parts(overrides.drop_last(), files).push(overrides.last())
    } else {
        held_parts(overrides.drop_last(), files)
    }
}

/// The extensions with `extension` given the content type `content_type`
/// where it had none.
pub open spec fn with_default(
    extensions: Seq<(Seq<char>, Seq<char>)>,
    extension: Seq<char>,
    content_type: Seq<char>,
) -> Seq<(Seq<char>, Seq<char>)> {
    if attribute_in(extensions, extension) is Some {
        extensions
    } else {
        extensions.push((extension, content_type))
    }
}

/// The content types of a package that is written with the files
/// `files`: every file that is named as a part has its content type, no
/// part is named whose file the package does not have, and the extensions
/// of relationship files and of XML files have content types.
pub open spec fn written_types(types: TypesModel, files: Seq<FileModel>) -> TypesModel {
    TypesModel {
        extensions: with_default(
            with_default(types.extensions, "rels"@, relationships_content_spec().content_type@),
            "xml"@,
            content_types_content_spec().content_type@,
        ),
        overrides: held_parts(with_parts(types.overrides, files), files),
    }
}

/// The package after its content types have been written into its
/// manifest.
pub open spec fn with_manifest(package: PackageModel) -> PackageModel {
    let types = written_types(package.types, package.files);
    PackageModel {
        files: after_write(
            package.files,
            manifest_name(),
            Some(types_node(types.extensions, types.overrides)),
            content_types_content_spec().content_type@,
        ),
        types,
        ..package
    }
}

/// What writing the content types of a package into its manifest gives:
/// the package with its manifest, or a failure of the codec where the
/// text of the manifest cannot be compressed.
pub open spec fn manifest_written(package: PackageModel) -> Result<PackageModel, OfficeError> {
    let types = written_types(package.types, package.files);
    if keepable(Some(types_node(types.extensions, types.overrides))) {
        Ok(with_manifest(package))
    } else {
        Err(OfficeError::Codec)
    }
}

/// What adding a sheet to the workbook of a package gives: the package
/// with the sheet; a conflict where a sheet has the name already; a
/// failure of the codec where the text of a new worksheet cannot be
/// compressed.
pub open spec fn sheet_added(package: PackageModel, name: Option<Seq<char>>) -> Result<
    PackageModel,
    OfficeError,
> {
    if package.workbook.workbook.has_sheet(new_sheet_name(package.workbook.workbook, name)) {
        Err(OfficeError::Conflict)
    } else if !keepable(Some(new_worksheet_node())) {
        Err(OfficeError::Codec)
    } else {
        Ok(with_sheet(package, name))
    }
}

/// What opening an archive gives: the package of the files that loading
/// the archive gives, opened as `opened_package` says.
pub open spec fn opened_archive(bytes: Seq<u8>) -> Result<PackageModel, OfficeError> {
    match loaded(bytes) {
        Ok(files) => opened_package(files),
        Err(e) => Err(e),
    }
}

/// The package of a new workbook: what opening a package without files
/// gives, with one sheet added to its workbook.
pub open spec fn created_package() -> Result<PackageModel, OfficeError> {
    match opened_package(Seq::empty()) {
        Ok(package) => sheet_added(package, None),
        Err(e) => Err(e),
    }
}

/// The package after it has been closed: the workbook is closed as
/// `closed_workbook` says, then the relationships of the package are
/// written, and last the manifest of content types.
pub open spec fn closed_package(package: PackageModel) -> Result<PackageModel, OfficeError> {
    match closed_workbook(package.files, package.workbook) {
        Ok(with_workbook) => match closed_relations(with_workbook, package.relations) {
            Ok((_, with_relations)) => manifest_written(
                PackageModel {
                    files: with_relations,
                    workbook: WorkbookState {
                        relations: closed_workbook_relations(package.workbook),
                        ..package.workbook
                    },
                    ..package
                },
            ),
            Err(e) => Err(e),
        },
        Err(e) => Err(e),
    }
}

} // verus!
