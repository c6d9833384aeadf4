//! The package of a new workbook: what it holds once it has been made.

use vstd::prelude::*;
use crate::element_dictionary::{
    relationships_content_spec, style_content_spec, theme_content_spec, workbook_content_spec,
    worksheet_content_spec,
};
use crate::error::OfficeError;
use crate::numbering::{first_free, next_name};
use crate::office_document::{FileModel, after_read, after_write, holds_file, names_of};
use crate::package_state::{
    PackageModel, closed_package, created_package, manifest_name, new_sheet_path, opened_package,
    opened_types, package_relations_name, with_sheet,
};
use crate::part::CloseAction;
use crate::part_store::{closed_relations, kept, opened_relations, opened_root, part_saved};
use crate::relations::{
    RelationsModel, RelationshipModel, first_of_type, ids_of, new_part_path, new_relationship,
    new_relationships_node, next_relationship_id,
};
use crate::store_round_trip::{lemma_read_keeps_names, lemma_written_file_frame};
use crate::style_tables::{lemma_first_index, with_item};
use crate::text::decimal;
use crate::workbook::{last_slash, new_workbook_node, sheet_file_name, workbook_relationships_path};
use crate::workbook_model::{
    SheetModel, WorkbookModel, read_book_views, read_sheets, read_workbook, sheet_names,
};
use crate::workbook_store::{
    WorkbookState, closed_workbook, closed_workbook_relations, leading_to, opened_parts,
    opened_styles, opened_workbook, part_path, parts_saved, theme_saved,
};
use crate::xml_node::{Node, last_named};
use crate::xml_prune::pruned_root;

verus! {

/// The first names: the first sheet without a name of its own is
/// `Sheet1`, and the first relationship is `rId1`.
pub proof fn lemma_first_names()
    ensures
        next_name("Sheet"@, Seq::empty()) == "Sheet1"@,
        next_relationship_id(Seq::empty()) == "rId1"@,
{
    reveal_strlit("Sheet");
    reveal_strlit("Sheet1");
    reveal_strlit("rId");
    reveal_strlit("rId1");
    assert("Sheet"@.len() == 5 && "Sheet1"@.len() == 6 && "rId"@.len() == 3 && "rId1"@.len() == 4);
    let d = decimal(1);
    assert(d.len() == 1);
    assert(d[0] as u32 == '1' as u32);
    vstd::utf8::char_u32_cast(d[0], d[0] as u32);
    vstd::utf8::char_u32_cast('1', '1' as u32);
    assert(d[0] == '1');
    assert("Sheet1"@[5] == '1' && "rId1"@[3] == '1');
    let taken = Seq::<Seq<char>>::empty();
    assert(first_free("Sheet"@, taken, 1) == 1);
    assert(first_free("rId"@, taken, 1) == 1);
    assert("Sheet"@ + d =~= "Sheet1"@);
    assert("rId"@ + d =~= "rId1"@);
}

/// The place of the last slash of a path that ends in a name without
/// slash behind a slash.
pub proof fn lemma_last_slash(front: Seq<char>, name: Seq<char>)
    requires
        forall|i: int| 0 <= i < name.len() ==> name[i] != '/',
    ensures
        last_slash(front + seq!['/'] + name) == Some(front.len()),
    decreases name.len(),
{
    let path = front + seq!['/'] + name;
    if name.len() == 0 {
        assert(path.last() == '/');
    } else {
        assert(path.last() == name.last());
        assert(path.drop_last() =~= front + seq!['/'] + name.drop_last());
        lemma_last_slash(front, name.drop_last());
    }
}

/// The paths of the parts of a new workbook.
pub proof fn lemma_new_paths()
    ensures
        new_part_path(workbook_content_spec(), None, None) == "xl/workbook.xml"@,
        new_part_path(theme_content_spec(), None, None) == "xl/theme/theme1.xml"@,
        new_part_path(style_content_spec(), None, None) == "xl/styles.xml"@,
        new_part_path(worksheet_content_spec(), None, Some(sheet_file_name(1)))
            == "xl/worksheets/sheet1.xml"@,
        workbook_relationships_path("xl/workbook.xml"@) == Some("xl/_rels/workbook.xml.rels"@),
{
    reveal_strlit("xl");
    reveal_strlit("xl/theme");
    reveal_strlit("xl/worksheets");
    reveal_strlit("workbook");
    reveal_strlit("theme1");
    reveal_strlit("styles");
    reveal_strlit("sheet");
    reveal_strlit("xml");
    reveal_strlit("xl/workbook.xml");
    reveal_strlit("xl/theme/theme1.xml");
    reveal_strlit("xl/styles.xml");
    reveal_strlit("xl/worksheets/sheet1.xml");
    reveal_strlit("/_rels/workbook.xml.rels");
    reveal_strlit("xl/_rels/workbook.xml.rels");
    reveal_strlit("workbook.xml");
    assert("xl"@.len() == 2 && "xl/theme"@.len() == 8 && "xl/worksheets"@.len() == 13
        && "workbook"@.len() == 8 && "theme1"@.len() == 6 && "styles"@.len() == 6 && "sheet"@.len()
        == 5 && "xml"@.len() == 3);
    assert("xl/workbook.xml"@.len() == 15 && "xl/theme/theme1.xml"@.len() == 19
        && "xl/styles.xml"@.len() == 13 && "xl/worksheets/sheet1.xml"@.len() == 24
        && "/_rels/workbook.xml.rels"@.len() == 24 && "xl/_rels/workbook.xml.rels"@.len() == 26
        && "workbook.xml"@.len() == 12);
    let d = decimal(1);
    assert(d.len() == 1);
    assert(d[0] as u32 == '1' as u32);
    vstd::utf8::char_u32_cast(d[0], d[0] as u32);
    vstd::utf8::char_u32_cast('1', '1' as u32);
    assert(d[0] == '1');
    assert("xl"@ + seq!['/'] + "workbook"@ + seq!['.'] + "xml"@ =~= "xl/workbook.xml"@);
    assert("xl/theme"@ + seq!['/'] + "theme1"@ + seq!['.'] + "xml"@ =~= "xl/theme/theme1.xml"@);
    assert("xl"@ + seq!['/'] + "styles"@ + seq!['.'] + "xml"@ =~= "xl/styles.xml"@);
    assert(sheet_file_name(1) =~= "sheet"@ + d);
    assert("xl/worksheets"@ + seq!['/'] + ("sheet"@ + d) + seq!['.'] + "xml"@
        =~= "xl/worksheets/sheet1.xml"@);
    assert("xl/workbook.xml"@ =~= "xl"@ + seq!['/'] + "workbook.xml"@);
    lemma_last_slash("xl"@, "workbook.xml"@);
    assert("xl/workbook.xml"@.subrange(0, 2) + "/_rels/workbook.xml.rels"@
        =~= "xl/_rels/workbook.xml.rels"@);
}

/// The tree of the XML of a new workbook holds no view and no sheet.
pub proof fn lemma_new_workbook_is_empty()
    ensures
        read_workbook(new_workbook_node().children) == Some(
            WorkbookModel { sheets: Seq::empty(), view: None },
        ),
{
    reveal_strlit("fileVersion");
    reveal_strlit("bookViews");
    reveal_strlit("sheets");
    assert("fileVersion"@.len() == 11 && "bookViews"@.len() == 9 && "sheets"@.len() == 6);
    let children = new_workbook_node().children;
    assert(children.len() == 1);
    assert(children.last().tag == "fileVersion"@);
    assert(children.drop_last() =~= Seq::<Node>::empty());
    assert(last_named(children.drop_last(), "bookViews"@) is None);
    assert(last_named(children.drop_last(), "sheets"@) is None);
    assert(last_named(children, "bookViews"@) is None);
    assert(last_named(children, "sheets"@) is None);
    assert(read_book_views(children) == Some(None::<crate::workbook_model::WorkbookViewModel>));
    assert(read_sheets(children) == Some(Seq::<SheetModel>::empty()));
    assert(sheet_names(Seq::<SheetModel>::empty()) =~= Seq::<Seq<char>>::empty());
}

/// The one sheet of a new workbook: the package of a new workbook holds
/// exactly one sheet, named `Sheet1`, to which the relationship `rId1` of
/// the workbook leads; it is neither active nor hidden, and the workbook
/// has no view.
pub proof fn lemma_new_workbook_has_one_sheet()
    ensures
        match created_package() {
            Ok(package) => package.workbook.workbook == (WorkbookModel {
                sheets: seq![
                    SheetModel {
                        name: "Sheet1"@,
                        relationship_id: "rId1"@,
                        is_active: false,
                        is_hidden: false,
                    },
                ],
                view: None,
            }),
            Err(_) => true,
        },
{
    lemma_opened_new_package();
    lemma_first_names();
    match created_package() {
        Ok(package) => {
            let before = opened_package(Seq::empty())->Ok_0;
            assert(package == with_sheet(before, None));
            assert(sheet_names(Seq::<SheetModel>::empty()) =~= Seq::<Seq<char>>::empty());
            assert(ids_of(Seq::<RelationshipModel>::empty()) =~= Seq::<Seq<char>>::empty());
            assert(package.workbook.workbook.sheets =~= seq![
                SheetModel {
                    name: "Sheet1"@,
                    relationship_id: "rId1"@,
                    is_active: false,
                    is_hidden: false,
                },
            ]);
        },
        Err(_) => {},
    }
}

/// The names of the files after a document has been written into a file:
/// the names that there were, with the name of the file among them.
pub proof fn lemma_names_written(
    files: Seq<FileModel>,
    name: Seq<char>,
    root: Option<Node>,
    content_type: Seq<char>,
)
    ensures
        names_of(after_write(files, name, root, content_type)) == with_item(
            names_of(files),
            name,
        ),
        names_of(kept(files, name, root, content_type)) == with_item(names_of(files), name),
{
    lemma_first_index(names_of(files), name);
    lemma_read_keeps_names(files, name);
    lemma_first_index(names_of(after_read(files, name)), name);
    assert(names_of(after_write(files, name, root, content_type)) =~= with_item(
        names_of(files),
        name,
    ));
    assert(names_of(kept(files, name, root, content_type)) =~= with_item(names_of(files), name));
}

/// A name that is not among names stands behind them once it is put in.
pub proof fn lemma_with_new_name(names: Seq<Seq<char>>, name: Seq<char>)
    requires
        forall|i: int| 0 <= i < names.len() ==> names[i] != name,
    ensures
        with_item(names, name) == names.push(name),
{
    lemma_first_index(names, name);
    if names.contains(name) {
        let k = choose|k: int| 0 <= k < names.len() && names[k] == name;
        assert(names[k] != name);
    }
}

/// Names are left as they are when one of them is put in.
pub proof fn lemma_with_old_name(names: Seq<Seq<char>>, name: Seq<char>, k: int)
    requires
        0 <= k < names.len(),
        names[k] == name,
    ensures
        with_item(names, name) == names,
{
    lemma_first_index(names, name);
    assert(names.contains(name));
}

/// The names of the seven files of a new package differ.
pub proof fn lemma_new_names_differ()
    ensures
        "_rels/.rels"@ != "xl/_rels/workbook.xml.rels"@,
        "_rels/.rels"@ != "xl/styles.xml"@,
        "_rels/.rels"@ != "xl/workbook.xml"@,
        "_rels/.rels"@ != "xl/worksheets/sheet1.xml"@,
        "_rels/.rels"@ != "xl/theme/theme1.xml"@,
        "_rels/.rels"@ != "[Content_Types].xml"@,
        "xl/_rels/workbook.xml.rels"@ != "xl/styles.xml"@,
        "xl/_rels/workbook.xml.rels"@ != "xl/workbook.xml"@,
        "xl/_rels/workbook.xml.rels"@ != "xl/worksheets/sheet1.xml"@,
        "xl/_rels/workbook.xml.rels"@ != "xl/theme/theme1.xml"@,
        "xl/_rels/workbook.xml.rels"@ != "[Content_Types].xml"@,
        "xl/styles.xml"@ != "xl/workbook.xml"@,
        "xl/styles.xml"@ != "xl/worksheets/sheet1.xml"@,
        "xl/styles.xml"@ != "xl/theme/theme1.xml"@,
        "xl/styles.xml"@ != "[Content_Types].xml"@,
        "xl/workbook.xml"@ != "xl/worksheets/sheet1.xml"@,
        "xl/workbook.xml"@ != "xl/theme/theme1.xml"@,
        "xl/workbook.xml"@ != "[Content_Types].xml"@,
        "xl/worksheets/sheet1.xml"@ != "xl/theme/theme1.xml"@,
        "xl/worksheets/sheet1.xml"@ != "[Content_Types].xml"@,
        "xl/theme/theme1.xml"@ != "[Content_Types].xml"@,
{
    reveal_strlit("_rels/.rels");
    reveal_strlit("xl/_rels/workbook.xml.rels");
    reveal_strlit("xl/styles.xml");
    reveal_strlit("xl/workbook.xml");
    reveal_strlit("xl/worksheets/sheet1.xml");
    reveal_strlit("xl/theme/theme1.xml");
    reveal_strlit("[Content_Types].xml");
    assert("_rels/.rels"@.len() == 11 && "xl/_rels/workbook.xml.rels"@.len() == 26
        && "xl/styles.xml"@.len() == 13 && "xl/workbook.xml"@.len() == 15
        && "xl/worksheets/sheet1.xml"@.len() == 24 && "xl/theme/theme1.xml"@.len() == 19
        && "[Content_Types].xml"@.len() == 19);
    assert("xl/theme/theme1.xml"@[0] == 'x' && "[Content_Types].xml"@[0] == '[');
}

/// The types of the relationships that lead to the parts of a workbook
/// differ.
pub proof fn lemma_part_types_differ()
    ensures
        worksheet_content_spec().schemas_type@ != theme_content_spec().schemas_type@,
        worksheet_content_spec().schemas_type@ != style_content_spec().schemas_type@,
        theme_content_spec().schemas_type@ != style_content_spec().schemas_type@,
{
    reveal_strlit("http://schemas.openxmlformats.org/officeDocument/2006/relationships/worksheet");
    reveal_strlit("http://schemas.openxmlformats.org/officeDocument/2006/relationships/theme");
    reveal_strlit("http://schemas.openxmlformats.org/officeDocument/2006/relationships/styles");
    assert("http://schemas.openxmlformats.org/officeDocument/2006/relationships/worksheet"@.len()
        == 77);
    assert("http://schemas.openxmlformats.org/officeDocument/2006/relationships/theme"@.len()
        == 73);
    assert("http://schemas.openxmlformats.org/officeDocument/2006/relationships/styles"@.len()
        == 74);
}

/// What the package of a new workbook is before its first sheet is
/// added: the four files of the relationships of the package, of the
/// relationships of the workbook, of the style sheet and of the workbook;
/// a workbook without sheets, strings, chain or relationships; and one
/// relationship of the package.
pub open spec fn is_opened_new(package: PackageModel) -> bool {
    &&& names_of(package.files) == seq![
        "_rels/.rels"@,
        "xl/_rels/workbook.xml.rels"@,
        "xl/styles.xml"@,
        "xl/workbook.xml"@,
    ]
    &&& package.workbook.path == "xl/workbook.xml"@
    &&& package.workbook.workbook == (WorkbookModel { sheets: Seq::empty(), view: None })
    &&& package.workbook.relations == (RelationsModel {
        relationships: Seq::empty(),
        file_path: "xl/_rels/workbook.xml.rels"@,
    })
    &&& package.workbook.strings.len() == 0
    &&& package.workbook.chain.len() == 0
    &&& package.relations.file_path == "_rels/.rels"@
    &&& package.relations.relationships.len() == 1
}

/// The package of a new workbook before its first sheet is added.
pub proof fn lemma_opened_new_package()
    ensures
        match opened_package(Seq::empty()) {
            Ok(package) => is_opened_new(package),
            Err(_) => true,
        },
{
    let none = Seq::<FileModel>::empty();
    let rels_name = package_relations_name();
    let kind = relationships_content_spec().content_type@;
    let content = workbook_content_spec();
    lemma_new_paths();
    lemma_new_names_differ();
    lemma_new_workbook_is_empty();
    match opened_package(none) {
        Ok(package) => {
            assert(opened_types(none) is Ok);
            assert(after_read(none, manifest_name()) =~= none);
            assert(!holds_file(none, rels_name));
            let first_root = pruned_root(Some(new_relationships_node()), "Relationship"@);
            let files1 = kept(none, rels_name, first_root, kind);
            let relations = RelationsModel {
                relationships: Seq::<RelationshipModel>::empty(),
                file_path: rels_name,
            };
            assert(new_relationships_node().children =~= Seq::<Node>::empty());
            assert(opened_relations(none, rels_name) == Ok::<
                (RelationsModel, Seq<FileModel>),
                OfficeError,
            >((relations, files1)));
            lemma_names_written(none, rels_name, first_root, kind);
            assert(names_of(none) =~= Seq::<Seq<char>>::empty());
            lemma_with_new_name(names_of(none), rels_name);
            let path = "xl/workbook.xml"@;
            assert(part_path(relations, content) == Ok::<Seq<char>, OfficeError>(path));
            assert(after_read(none, rels_name) =~= none);
            lemma_written_file_frame(none, rels_name, first_root, kind, path);
            assert(!holds_file(files1, path));
            assert(opened_root(files1, path, Some(new_workbook_node())) == Some(
                new_workbook_node(),
            ));
            let own_path = "xl/_rels/workbook.xml.rels"@;
            lemma_written_file_frame(none, rels_name, first_root, kind, own_path);
            assert(after_read(files1, path) =~= files1);
            assert(!holds_file(files1, own_path));
            let own = RelationsModel {
                relationships: Seq::<RelationshipModel>::empty(),
                file_path: own_path,
            };
            let own_root = pruned_root(Some(new_relationships_node()), "Relationship"@);
            let files2 = kept(files1, own_path, own_root, kind);
            assert(opened_relations(files1, own_path) == Ok::<
                (RelationsModel, Seq<FileModel>),
                OfficeError,
            >((own, files2)));
            lemma_names_written(files1, own_path, own_root, kind);
            lemma_with_new_name(names_of(files1), own_path);
            let parts = opened_parts(files2, path, new_workbook_node(), own);
            assert(opened_workbook(files1, relations) == parts);
            let style_path = "xl/styles.xml"@;
            let styled = opened_styles(files2, style_path);
            assert(styled is Ok);
            let files3 = styled->Ok_0.1;
            let style_root = crate::workbook_store::without_tables(
                opened_root(files2, style_path, Some(crate::style_write::new_style_sheet_node())),
            );
            assert(files3 == kept(
                files2,
                style_path,
                style_root,
                style_content_spec().content_type@,
            ));
            lemma_names_written(files2, style_path, style_root, style_content_spec().content_type@);
            lemma_with_new_name(names_of(files2), style_path);
            let book_root = crate::workbook_store::without_lists(Some(new_workbook_node()));
            lemma_names_written(files3, path, book_root, content.content_type@);
            lemma_with_new_name(names_of(files3), path);
            assert(names_of(package.files) =~= seq![rels_name, own_path, style_path, path]);
            assert(package.relations == leading_to(relations, content));
            assert(package.relations.relationships.len() == 1);
        },
        Err(_) => {},
    }
}

/// The names of the five files of a new package before it is closed.
pub open spec fn first_five() -> Seq<Seq<char>> {
    seq![
        "_rels/.rels"@,
        "xl/_rels/workbook.xml.rels"@,
        "xl/styles.xml"@,
        "xl/workbook.xml"@,
        "xl/worksheets/sheet1.xml"@,
    ]
}

/// Whether a workbook is that of a new package with its one sheet: its
/// one relationship leads to the worksheet, and it has neither strings
/// nor a chain.
pub open spec fn is_new_workbook(state: WorkbookState) -> bool {
    &&& state.path == "xl/workbook.xml"@
    &&& state.relations.file_path == "xl/_rels/workbook.xml.rels"@
    &&& state.relations.relationships.len() == 1
    &&& state.relations.relationships[0].kind == worksheet_content_spec().schemas_type@
    &&& state.strings.len() == 0
    &&& state.chain.len() == 0
}

/// Closing the parts of the workbook of a new package adds the theme to
/// its files.
pub proof fn lemma_new_parts_saved(files: Seq<FileModel>, state: WorkbookState)
    requires
        names_of(files) == first_five(),
        is_new_workbook(state),
    ensures
        parts_saved(files, state) matches Ok(after) ==> names_of(after) == first_five().push(
            "xl/theme/theme1.xml"@,
        ),
        closed_workbook_relations(state).file_path == "xl/_rels/workbook.xml.rels"@,
        closed_workbook_relations(state).relationships.len() > 0,
{
    lemma_new_paths();
    lemma_new_names_differ();
    lemma_part_types_differ();
    let own = state.relations;
    let list = own.relationships;
    let n5 = first_five();
    let theme_path = "xl/theme/theme1.xml"@;
    let style_path = "xl/styles.xml"@;
    assert(list.drop_first() =~= Seq::<RelationshipModel>::empty());
    assert(first_of_type(list.drop_first(), theme_content_spec().schemas_type@) is None);
    assert(first_of_type(list, theme_content_spec().schemas_type@) is None);
    assert(part_path(own, theme_content_spec()) == Ok::<Seq<char>, OfficeError>(theme_path));
    let with_theme = leading_to(own, theme_content_spec());
    let themed = with_theme.relationships;
    assert(themed =~= list.push(new_relationship(ids_of(list), theme_content_spec(), None, None)));
    assert(themed.drop_first().drop_first() =~= Seq::<RelationshipModel>::empty());
    assert(first_of_type(themed.drop_first().drop_first(), style_content_spec().schemas_type@)
        is None);
    assert(themed.drop_first()[0].kind == theme_content_spec().schemas_type@);
    assert(first_of_type(themed.drop_first(), style_content_spec().schemas_type@) is None);
    assert(themed[0].kind == worksheet_content_spec().schemas_type@);
    assert(first_of_type(themed, style_content_spec().schemas_type@) is None);
    assert(part_path(with_theme, style_content_spec()) == Ok::<Seq<char>, OfficeError>(
        style_path,
    ));
    let with_styles = leading_to(with_theme, style_content_spec());
    assert(with_styles.relationships.len() == 3);
    assert(closed_workbook_relations(state) == with_styles);
    match theme_saved(files, own) {
        Ok(first) => {
            lemma_part_saved_names(
                files,
                theme_path,
                crate::theme::new_theme_node(),
                theme_content_spec().content_type@,
                Seq::empty(),
                None,
            );
            lemma_with_new_name(n5, theme_path);
            let n6 = n5.push(theme_path);
            assert(names_of(first) == n6);
            lemma_part_saved_names(
                first,
                style_path,
                crate::part_store::root_only_node(
                    "styleSheet"@,
                    style_content_spec().schemas_namespace@,
                ),
                style_content_spec().content_type@,
                crate::style_write::style_nodes(state.styles),
                Some(crate::order_dictionary::style_order_tags()),
            );
            lemma_with_old_name(n6, style_path, 2);
        },
        Err(_) => {},
    }
}

/// Closing the workbook of a new package adds the theme to its files.
pub proof fn lemma_new_workbook_closed(files: Seq<FileModel>, state: WorkbookState)
    requires
        names_of(files) == first_five(),
        is_new_workbook(state),
    ensures
        closed_workbook(files, state) matches Ok(after) ==> names_of(after) == first_five().push(
            "xl/theme/theme1.xml"@,
        ),
{
    lemma_new_parts_saved(files, state);
    let n6 = first_five().push("xl/theme/theme1.xml"@);
    let own_closed = closed_workbook_relations(state);
    match parts_saved(files, state) {
        Ok(second) => {
            lemma_closed_relations_names(second, own_closed);
            lemma_with_old_name(n6, own_closed.file_path, 1);
            match closed_relations(second, own_closed) {
                Ok((_, third)) => {
                    assert(names_of(third) == n6);
                    lemma_part_saved_names(
                        third,
                        state.path,
                        new_workbook_node(),
                        workbook_content_spec().content_type@,
                        crate::workbook_model::workbook_nodes(state.workbook),
                        Some(crate::order_dictionary::workbook_order_tags()),
                    );
                    lemma_with_old_name(n6, state.path, 3);
                },
                Err(_) => {},
            }
        },
        Err(_) => {},
    }
}

/// Whether a package is that of a new workbook with its one sheet, before
/// it is closed.
pub open spec fn is_created(package: PackageModel) -> bool {
    &&& names_of(package.files) == first_five()
    &&& is_new_workbook(package.workbook)
    &&& package.relations.file_path == "_rels/.rels"@
    &&& package.relations.relationships.len() == 1
}

/// The package of a new workbook with its one sheet has five files.
pub proof fn lemma_created_package()
    ensures
        match created_package() {
            Ok(package) => is_created(package),
            Err(_) => true,
        },
{
    lemma_opened_new_package();
    lemma_new_paths();
    lemma_new_names_differ();
    match created_package() {
        Ok(package) => {
            let before = opened_package(Seq::empty())->Ok_0;
            assert(package == with_sheet(before, None));
            let sheet_path = "xl/worksheets/sheet1.xml"@;
            assert(new_sheet_path(before.workbook.workbook) == sheet_path);
            lemma_names_written(
                before.files,
                sheet_path,
                Some(crate::worksheet::new_worksheet_node()),
                worksheet_content_spec().content_type@,
            );
            lemma_with_new_name(names_of(before.files), sheet_path);
            assert(names_of(package.files) =~= first_five());
            let state = package.workbook;
            assert(state.relations.relationships.len() == 1);
            assert(state.relations.relationships[0].kind == worksheet_content_spec().schemas_type@);
        },
        Err(_) => {},
    }
}

/// Closing the package of a new workbook adds the theme and the manifest
/// of content types to its five files.
#[verifier::rlimit(100)]
pub proof fn lemma_created_package_closed(package: PackageModel)
    requires
        is_created(package),
    ensures
        closed_package(package) matches Ok(closed) ==> names_of(closed.files)
            == first_five().push("xl/theme/theme1.xml"@).push("[Content_Types].xml"@),
{
    let state = package.workbook;
    lemma_new_workbook_closed(package.files, state);
    lemma_new_names_differ();
    let n6 = first_five().push("xl/theme/theme1.xml"@);
    match closed_workbook(package.files, state) {
        Ok(fourth) => {
            lemma_closed_relations_names(fourth, package.relations);
            lemma_with_old_name(n6, package.relations.file_path, 0);
            match closed_relations(fourth, package.relations) {
                Ok((_, fifth)) => {
                    assert(names_of(fifth) == n6);
                    let staged = PackageModel {
                        files: fifth,
                        workbook: WorkbookState {
                            relations: closed_workbook_relations(state),
                            ..state
                        },
                        ..package
                    };
                    let types = crate::package_state::written_types(staged.types, staged.files);
                    lemma_names_written(
                        fifth,
                        manifest_name(),
                        Some(crate::content_types::types_node(types.extensions, types.overrides)),
                        crate::element_dictionary::content_types_content_spec().content_type@,
                    );
                    lemma_with_new_name(n6, manifest_name());
                },
                Err(_) => {},
            }
        },
        Err(_) => {},
    }
}

/// The seven files of a new package: the archive of a new workbook that
/// has been closed holds the relationships of the package, the
/// relationships of the workbook, the style sheet, the workbook, the
/// worksheet of its one sheet, the theme and the manifest of content
/// types, each once, in this order.
#[verifier::rlimit(100)]
pub proof fn lemma_new_package_files()
    ensures
        match created_package() {
            Ok(package) => match closed_package(package) {
                Ok(closed) => names_of(closed.files) == seq![
                    "_rels/.rels"@,
                    "xl/_rels/workbook.xml.rels"@,
                    "xl/styles.xml"@,
                    "xl/workbook.xml"@,
                    "xl/worksheets/sheet1.xml"@,
                    "xl/theme/theme1.xml"@,
                    "[Content_Types].xml"@,
                ],
                Err(_) => true,
            },
            Err(_) => true,
        },
{
    lemma_created_package();
    match created_package() {
        Ok(package) => {
            lemma_created_package_closed(package);
            assert(first_five().push("xl/theme/theme1.xml"@).push("[Content_Types].xml"@) =~= seq![
                "_rels/.rels"@,
                "xl/_rels/workbook.xml.rels"@,
                "xl/styles.xml"@,
                "xl/workbook.xml"@,
                "xl/worksheets/sheet1.xml"@,
                "xl/theme/theme1.xml"@,
                "[Content_Types].xml"@,
            ]);
        },
        Err(_) => {},
    }
}

/// The names of the files after a part has been written into its file.
pub proof fn lemma_part_saved_names(
    files: Seq<FileModel>,
    path: Seq<char>,
    fallback: Node,
    content_type: Seq<char>,
    added: Seq<Node>,
    order: Option<Seq<Seq<char>>>,
)
    ensures
        part_saved(files, path, fallback, content_type, added, order) matches Ok(after)
            ==> names_of(after) == with_item(names_of(files), path),
{
    match opened_root(files, path, Some(fallback)) {
        Some(root) => {
            lemma_names_written(
                files,
                path,
                Some(
                    Node {
                        children: crate::part_store::arranged(root.children + added, order),
                        ..root
                    },
                ),
                content_type,
            );
        },
        None => {},
    }
}

/// The names of the files after a relationships part that has
/// relationships has been closed.
pub proof fn lemma_closed_relations_names(files: Seq<FileModel>, relations: RelationsModel)
    requires
        relations.relationships.len() > 0,
    ensures
        closed_relations(files, relations) matches Ok(after) ==> after.0 == CloseAction::WriteBack
            && names_of(after.1) == with_item(names_of(files), relations.file_path),
{
    match opened_root(files, relations.file_path, Some(new_relationships_node())) {
        Some(root) => {
            lemma_names_written(
                files,
                relations.file_path,
                Some(
                    Node {
                        children: root.children + crate::relations::relationship_nodes(
                            relations.relationships,
                        ),
                        ..root
                    },
                ),
                relationships_content_spec().content_type@,
            );
        },
        None => {},
    }
}

} // verus!
