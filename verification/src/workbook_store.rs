//! The workbook and the package store: what opening the workbook's part
//! takes out of the files of the package, and what closing it writes
//! back.

use vstd::prelude::*;
use crate::calculation_chain::chain_nodes;
use crate::element_dictionary::{
    calculation_chain_content_spec, share_string_content_spec, style_content_spec,
    theme_content_spec, workbook_content_spec,
};
use crate::error::OfficeError;
use crate::office_document::{FileModel, after_read, after_write, keepable};
use crate::order_dictionary::{style_order_tags, workbook_order_tags};
use crate::part_store::{
    closed_relations, kept_or, opened_relations, opened_root, part_saved, root_only_node,
};
use crate::relations::RelationsModel;
use crate::share_string::shared_string_nodes;
use crate::style_read::{read_style, root_children, without_style_tables};
use crate::style_tables::StyleModel;
use crate::style_write::{new_style_sheet_node, style_nodes};
use crate::theme::new_theme_node;
use crate::workbook::{new_workbook_node, without_workbook_lists, workbook_relationships_path};
use crate::workbook_model::{WorkbookModel, read_workbook, workbook_nodes};
use crate::xml_document::DocumentModel;
use crate::xml_node::Node;
use crate::xml_prune::{pruned_all, pruned_root};

verus! {

/// The children of a root's subtree; none where there is no root.
pub open spec fn children_of(root: Option<Node>) -> Seq<Node> {
    match root {
        Some(node) => node.children,
        None => Seq::empty(),
    }
}

/// The root's subtree of a style sheet without the six style tables.
pub open spec fn without_tables(root: Option<Node>) -> Option<Node> {
    pruned_root(
        pruned_root(
            pruned_root(
                pruned_root(pruned_root(pruned_root(root, "numFmts"@), "fonts"@), "fills"@),
                "borders"@,
            ),
            "cellStyleXfs"@,
        ),
        "cellXfs"@,
    )
}

/// Whether `tag` is the name of one of the six style tables.
pub open spec fn is_table_name(tag: Seq<char>) -> bool {
    tag == "numFmts"@ || tag == "fonts"@ || tag == "fills"@ || tag == "borders"@ || tag
        == "cellStyleXfs"@ || tag == "cellXfs"@
}

/// The nodes `nodes` without the six style tables.
pub open spec fn tables_taken(nodes: Seq<Node>) -> Seq<Node> {
    pruned_all(
        pruned_all(
            pruned_all(
                pruned_all(pruned_all(pruned_all(nodes, "numFmts"@), "fonts"@), "fills"@),
                "borders"@,
            ),
            "cellStyleXfs"@,
        ),
        "cellXfs"@,
    )
}

/// A style sheet without its tables is the style sheet with what is left
/// of its root's children; a root that is named like a table is gone.
pub proof fn lemma_without_tables_root(root: Node)
    ensures
        without_tables(Some(root)) == (if is_table_name(root.tag) {
            None
        } else {
            Some(Node { children: tables_taken(root.children), ..root })
        }),
{
}

/// The root's subtree of a workbook without its views and its sheets.
pub open spec fn without_lists(root: Option<Node>) -> Option<Node> {
    pruned_root(pruned_root(root, "bookViews"@), "sheets"@)
}

/// A style sheet from which the style tables have been taken has the
/// root's subtree that it had, without the tables.
pub proof fn lemma_without_style_tables(document: DocumentModel)
    requires
        document.wf(),
    ensures
        without_style_tables(document).root_tree() == without_tables(document.root_tree()),
        root_children(document) == children_of(document.root_tree()),
{
    let d1 = document.without_subtrees(document.tagged("numFmts"@));
    let d2 = d1.without_subtrees(d1.tagged("fonts"@));
    let d3 = d2.without_subtrees(d2.tagged("fills"@));
    let d4 = d3.without_subtrees(d3.tagged("borders"@));
    let d5 = d4.without_subtrees(d4.tagged("cellStyleXfs"@));
    document.lemma_without_subtrees_wf(document.tagged("numFmts"@));
    d1.lemma_without_subtrees_wf(d1.tagged("fonts"@));
    d2.lemma_without_subtrees_wf(d2.tagged("fills"@));
    d3.lemma_without_subtrees_wf(d3.tagged("borders"@));
    d4.lemma_without_subtrees_wf(d4.tagged("cellStyleXfs"@));
    document.lemma_root_pruned("numFmts"@);
    d1.lemma_root_pruned("fonts"@);
    d2.lemma_root_pruned("fills"@);
    d3.lemma_root_pruned("borders"@);
    d4.lemma_root_pruned("cellStyleXfs"@);
    d5.lemma_root_pruned("cellXfs"@);
}

/// A workbook from which the views and the sheets have been taken has
/// the root's subtree that it had, without them.
pub proof fn lemma_without_workbook_lists(document: DocumentModel)
    requires
        document.wf(),
    ensures
        without_workbook_lists(document).root_tree() == without_lists(document.root_tree()),
        root_children(document) == children_of(document.root_tree()),
{
    let d1 = document.without_subtrees(document.tagged("bookViews"@));
    document.lemma_without_subtrees_wf(document.tagged("bookViews"@));
    document.lemma_root_pruned("bookViews"@);
    d1.lemma_root_pruned("sheets"@);
}

/// What opening the style sheet `path` gives: the style tables that the
/// file holds, those of a new workbook where the package has no such
/// file, and the files of the package, among them the style sheet without
/// its tables. A style sheet whose tables cannot be read is a failure of
/// the schema.
pub open spec fn opened_styles(files: Seq<FileModel>, path: Seq<char>) -> Result<
    (StyleModel, Seq<FileModel>),
    OfficeError,
> {
    match opened_root(files, path, Some(new_style_sheet_node())) {
        Some(root) => match read_style(root.children) {
            Some(tables) => match kept_or(
                files,
                path,
                without_tables(Some(root)),
                style_content_spec().content_type@,
            ) {
                Ok(after) => Ok((tables, after)),
                Err(e) => Err(e),
            },
            None => Err(OfficeError::Schema),
        },
        None => Err(OfficeError::Codec),
    }
}

/// The path that was found, or `fallback` where none was.
pub open spec fn path_or(found: Option<Seq<char>>, fallback: Seq<char>) -> Seq<char> {
    match found {
        Some(path) => path,
        None => fallback,
    }
}

/// What the part of a workbook has in memory.
pub struct WorkbookState {
    /// The path of the workbook's file.
    pub path: Seq<char>,
    /// The workbook's own relationships.
    pub relations: RelationsModel,
    pub theme_path: Seq<char>,
    pub strings_path: Seq<char>,
    pub style_path: Seq<char>,
    pub styles: StyleModel,
    /// The shared strings.
    pub strings: Seq<Seq<char>>,
    /// The cells of the calculation chain.
    pub chain: Seq<(Seq<char>, u32)>,
    /// The sheets and the view.
    pub workbook: WorkbookModel,
}

/// What the parts of a workbook have in memory once the workbook's own
/// relationships `relations` are known, and what they leave in the
/// package `files`: the paths of the theme, of the shared strings and of
/// the style sheet are those to which the relationships lead, or those of
/// a new workbook; the style tables are read from the style sheet; the
/// sheets and the view are read from the children of `root`, the root of
/// the workbook's file `path`, which goes back without them.
pub open spec fn opened_parts(
    files: Seq<FileModel>,
    path: Seq<char>,
    root: Node,
    relations: RelationsModel,
) -> Result<(WorkbookState, Seq<FileModel>), OfficeError> {
    match relations.found_target(theme_content_spec().schemas_type@) {
        Ok(theme) => match relations.found_target(share_string_content_spec().schemas_type@) {
            Ok(strings) => match relations.found_target(style_content_spec().schemas_type@) {
                Ok(style) => match opened_styles(files, path_or(style, "xl/styles.xml"@)) {
                    Ok((styles, with_styles)) => match read_workbook(root.children) {
                        Some(workbook) => if keepable(without_lists(Some(root))) {
                            Ok(
                                (
                                    WorkbookState {
                                        path,
                                        relations,
                                        theme_path: path_or(theme, "xl/theme/theme1.xml"@),
                                        strings_path: path_or(strings, "xl/sharedStrings.xml"@),
                                        style_path: path_or(style, "xl/styles.xml"@),
                                        styles,
                                        strings: Seq::empty(),
                                        chain: Seq::empty(),
                                        workbook,
                                    },
                                    after_write(
                                        with_styles,
                                        path,
                                        without_lists(Some(root)),
                                        workbook_content_spec().content_type@,
                                    ),
                                ),
                            )
                        } else {
                            Err(OfficeError::Codec)
                        },
                        None => Err(OfficeError::Schema),
                    },
                    Err(e) => Err(e),
                },
                Err(e) => Err(e),
            },
            Err(e) => Err(e),
        },
        Err(e) => Err(e),
    }
}

/// What opening the workbook of a package gives: what the workbook's part
/// has in memory, and the files of the package. The workbook's file is
/// the one to which the first relationship of the type of workbooks among
/// `parent` leads; where there is none, it is the file of a new workbook.
/// The workbook's own relationships are read from the relationships file
/// beside it, and its parts are opened as `opened_parts` says.
pub open spec fn opened_workbook(files: Seq<FileModel>, parent: RelationsModel) -> Result<
    (WorkbookState, Seq<FileModel>),
    OfficeError,
> {
    match part_path(parent, workbook_content_spec()) {
        Ok(path) => match opened_root(files, path, Some(new_workbook_node())) {
            Some(root) => match workbook_relationships_path(path) {
                Some(relations_path) => match opened_relations(
                    after_read(files, path),
                    relations_path,
                ) {
                    Ok((relations, with_relations)) => opened_parts(
                        with_relations,
                        path,
                        root,
                        relations,
                    ),
                    Err(e) => Err(e),
                },
                None => Err(OfficeError::Programmer),
            },
            None => Err(OfficeError::Codec),
        },
        Err(e) => Err(e),
    }
}

/// The relationships of a workbook after a relationship to a part of the
/// kind `content` has been asked for.
pub open spec fn leading_to(relations: RelationsModel, content: crate::element_dictionary::Content)
    -> RelationsModel {
    relations.with_target_by_type(content.schemas_type@, content, None, None)
}

/// The path of the part of the kind `content` of a workbook.
pub open spec fn part_path(relations: RelationsModel, content: crate::element_dictionary::Content)
    -> Result<Seq<char>, OfficeError> {
    relations.target_by_type(content.schemas_type@, content, None, None)
}

/// The files after the theme of a workbook has been written: the theme
/// that the package has, or that of a new workbook.
pub open spec fn theme_saved(files: Seq<FileModel>, relations: RelationsModel) -> Result<
    Seq<FileModel>,
    OfficeError,
> {
    match part_path(relations, theme_content_spec()) {
        Ok(path) => part_saved(
            files,
            path,
            new_theme_node(),
            theme_content_spec().content_type@,
            Seq::empty(),
            None,
        ),
        Err(e) => Err(e),
    }
}

/// The files after the style sheet of a workbook has been written: the
/// style tables are hung into the style sheet, whose root's children are
/// then in the order of the schema.
pub open spec fn styles_saved(
    files: Seq<FileModel>,
    relations: RelationsModel,
    styles: StyleModel,
) -> Result<Seq<FileModel>, OfficeError> {
    match part_path(relations, style_content_spec()) {
        Ok(path) => part_saved(
            files,
            path,
            root_only_node("styleSheet"@, style_content_spec().schemas_namespace@),
            style_content_spec().content_type@,
            style_nodes(styles),
            Some(style_order_tags()),
        ),
        Err(e) => Err(e),
    }
}

/// The files after the shared strings of a workbook have been written.
pub open spec fn strings_saved(
    files: Seq<FileModel>,
    relations: RelationsModel,
    strings: Seq<Seq<char>>,
) -> Result<Seq<FileModel>, OfficeError> {
    match part_path(relations, share_string_content_spec()) {
        Ok(path) => part_saved(
            files,
            path,
            root_only_node("sst"@, share_string_content_spec().schemas_namespace@),
            share_string_content_spec().content_type@,
            shared_string_nodes(strings),
            None,
        ),
        Err(e) => Err(e),
    }
}

/// The files after the calculation chain of a workbook has been written.
pub open spec fn chain_saved(
    files: Seq<FileModel>,
    relations: RelationsModel,
    chain: Seq<(Seq<char>, u32)>,
) -> Result<Seq<FileModel>, OfficeError> {
    match part_path(relations, calculation_chain_content_spec()) {
        Ok(path) => part_saved(
            files,
            path,
            root_only_node("calcChain"@, calculation_chain_content_spec().schemas_namespace@),
            calculation_chain_content_spec().content_type@,
            chain_nodes(chain),
            None,
        ),
        Err(e) => Err(e),
    }
}

/// The relationships of a workbook once its theme, its style sheet and,
/// where there are any, its shared strings have been written: they lead
/// to those parts.
pub open spec fn relations_with_strings(open: WorkbookState) -> RelationsModel {
    let with_styles = leading_to(
        leading_to(open.relations, theme_content_spec()),
        style_content_spec(),
    );
    if open.strings.len() > 0 {
        leading_to(with_styles, share_string_content_spec())
    } else {
        with_styles
    }
}

/// The relationships of a workbook once it has been closed: they lead to
/// the theme, to the style sheet, to the shared strings where there are
/// any, and to the calculation chain where it names a cell.
pub open spec fn closed_workbook_relations(open: WorkbookState) -> RelationsModel {
    if open.chain.len() > 0 {
        leading_to(relations_with_strings(open), calculation_chain_content_spec())
    } else {
        relations_with_strings(open)
    }
}

/// The files of the package after the parts of a workbook other than the
/// workbook itself have been written: the theme, the style sheet, the
/// shared strings where there are any, and the calculation chain where it
/// names a cell, each into the file to which the workbook's relationships
/// lead.
pub open spec fn parts_saved(files: Seq<FileModel>, open: WorkbookState) -> Result<
    Seq<FileModel>,
    OfficeError,
> {
    let with_theme = leading_to(open.relations, theme_content_spec());
    let with_styles = leading_to(with_theme, style_content_spec());
    match theme_saved(files, open.relations) {
        Ok(first) => match styles_saved(first, with_theme, open.styles) {
            Ok(second) => match (if open.strings.len() > 0 {
                strings_saved(second, with_styles, open.strings)
            } else {
                Ok(second)
            }) {
                Ok(third) => if open.chain.len() > 0 {
                    chain_saved(third, relations_with_strings(open), open.chain)
                } else {
                    Ok(third)
                },
                Err(e) => Err(e),
            },
            Err(e) => Err(e),
        },
        Err(e) => Err(e),
    }
}

/// The files of the package after a workbook has been closed: its parts
/// are written as `parts_saved` says, then its relationships, and last
/// the workbook's own file, into which the view and the sheets are hung,
/// the children of its root then being in the order of the schema.
pub open spec fn closed_workbook(files: Seq<FileModel>, open: WorkbookState) -> Result<
    Seq<FileModel>,
    OfficeError,
> {
    match parts_saved(files, open) {
        Ok(with_parts) => match closed_relations(with_parts, closed_workbook_relations(open)) {
            Ok((_, with_relations)) => part_saved(
                with_relations,
                open.path,
                new_workbook_node(),
                workbook_content_spec().content_type@,
                workbook_nodes(open.workbook),
                Some(workbook_order_tags()),
            ),
            Err(e) => Err(e),
        },
        Err(e) => Err(e),
    }
}

} // verus!
