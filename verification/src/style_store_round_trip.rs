//! The style sheet and the package store: the style tables that are
//! written into a package are those that are read from it again, and a
//! style sheet that is written again is written to the same bytes.

use vstd::prelude::*;
use crate::element_dictionary::style_content_spec;
use crate::error::OfficeError;
use crate::office_document::{FileModel, after_read, bytes_of};
use crate::order_dictionary::style_order_tags;
use crate::part_store::{opened_root, root_only_node};
use crate::relations::RelationsModel;
use crate::store_round_trip::{
    lemma_opened_root_sound, lemma_rootless_file, lemma_written_file_reads_back, takes_parts,
};
use crate::style_models::{
    BorderModel, BorderSideModel, CellXfs, ColorModel, FillModel, FontModel,
    HorizontalAlignmentValues, VerticalAlignmentValues, font_scheme_text,
    horizontal_alignment_text, vertical_alignment_text,
};
use crate::style_round_trip::lemma_saved_styles_read_back;
use crate::style_tables::StyleModel;
use crate::style_write::{
    alignment_attributes, border_node, border_side_node, borders_node, color_node, fill_node,
    fills_node, flag_nodes, font_node, fonts_node, has_alignment, new_style_sheet_node,
    num_fmt_node, num_fmts_node, opt_color_nodes, style_nodes, switch_attribute, val_node,
    xf_attributes, xf_node, xfs_node,
};
use crate::text::decimal;
use crate::workbook_store::{
    lemma_without_tables_root, opened_styles, part_path, styles_saved, tables_taken, without_tables,
};
use crate::xml_node::{Node, ordered_nodes};
use crate::xml_order::{lemma_ordered_again, lemma_pruned_ordered};
use crate::xml_prune::{
    all_named, lemma_pruned_all_both, lemma_pruned_all_commute, lemma_pruned_all_twice,
    lemma_pruned_names, pruned, pruned_all,
};
use crate::xml_round_trip::{attributes_valid, is_attribute_name, is_tag_name, node_valid};
use crate::xml_sound::{
    all_sound, is_settled, lemma_both_sound, lemma_children_sound, lemma_ordered_sound,
    lemma_pruned_sound, lemma_settled_is_canonical, lemma_with_children_sound,
};

verus! {

/// The names of the elements and attributes of a style sheet can name.
pub proof fn lemma_style_names()
    ensures
        is_tag_name("numFmts"@),
        is_tag_name("numFmt"@),
        is_tag_name("fonts"@),
        is_tag_name("font"@),
        is_tag_name("b"@),
        is_tag_name("i"@),
        is_tag_name("u"@),
        is_tag_name("sz"@),
        is_tag_name("color"@),
        is_tag_name("name"@),
        is_tag_name("family"@),
        is_tag_name("scheme"@),
        is_tag_name("fills"@),
        is_tag_name("fill"@),
        is_tag_name("patternFill"@),
        is_tag_name("fgColor"@),
        is_tag_name("bgColor"@),
        is_tag_name("borders"@),
        is_tag_name("border"@),
        is_tag_name("left"@),
        is_tag_name("right"@),
        is_tag_name("top"@),
        is_tag_name("bottom"@),
        is_tag_name("diagonal"@),
        is_tag_name("cellStyleXfs"@),
        is_tag_name("cellXfs"@),
        is_tag_name("xf"@),
        is_tag_name("alignment"@),
        is_tag_name("styleSheet"@),
        is_attribute_name("count"@),
        is_attribute_name("numFmtId"@),
        is_attribute_name("formatCode"@),
        is_attribute_name("val"@),
        is_attribute_name("indexed"@),
        is_attribute_name("rgb"@),
        is_attribute_name("theme"@),
        is_attribute_name("patternType"@),
        is_attribute_name("style"@),
        is_attribute_name("fontId"@),
        is_attribute_name("fillId"@),
        is_attribute_name("borderId"@),
        is_attribute_name("xfId"@),
        is_attribute_name("applyFont"@),
        is_attribute_name("applyAlignment"@),
        is_attribute_name("applyFill"@),
        is_attribute_name("applyBorder"@),
        is_attribute_name("applyNumberFormat"@),
        is_attribute_name("applyProtection"@),
        is_attribute_name("wrapText"@),
        is_attribute_name("vertical"@),
        is_attribute_name("horizontal"@),
        is_attribute_name("xmlns"@),
{
    reveal_strlit("numFmts");
    reveal_strlit("numFmt");
    reveal_strlit("fonts");
    reveal_strlit("font");
    reveal_strlit("b");
    reveal_strlit("i");
    reveal_strlit("u");
    reveal_strlit("sz");
    reveal_strlit("color");
    reveal_strlit("name");
    reveal_strlit("family");
    reveal_strlit("scheme");
    reveal_strlit("fills");
    reveal_strlit("fill");
    reveal_strlit("patternFill");
    reveal_strlit("fgColor");
    reveal_strlit("bgColor");
    reveal_strlit("borders");
    reveal_strlit("border");
    reveal_strlit("left");
    reveal_strlit("right");
    reveal_strlit("top");
    reveal_strlit("bottom");
    reveal_strlit("diagonal");
    reveal_strlit("cellStyleXfs");
    reveal_strlit("cellXfs");
    reveal_strlit("xf");
    reveal_strlit("alignment");
    reveal_strlit("styleSheet");
    reveal_strlit("count");
    reveal_strlit("numFmtId");
    reveal_strlit("formatCode");
    reveal_strlit("val");
    reveal_strlit("indexed");
    reveal_strlit("rgb");
    reveal_strlit("theme");
    reveal_strlit("patternType");
    reveal_strlit("style");
    reveal_strlit("fontId");
    reveal_strlit("fillId");
    reveal_strlit("borderId");
    reveal_strlit("xfId");
    reveal_strlit("applyFont");
    reveal_strlit("applyAlignment");
    reveal_strlit("applyFill");
    reveal_strlit("applyBorder");
    reveal_strlit("applyNumberFormat");
    reveal_strlit("applyProtection");
    reveal_strlit("wrapText");
    reveal_strlit("vertical");
    reveal_strlit("horizontal");
    reveal_strlit("xmlns");
}

/// The elements that stand for what is set are written so that they read
/// back as they are.
pub proof fn lemma_flag_nodes_sound(tag: Seq<char>, on: bool)
    requires
        is_tag_name(tag),
    ensures
        all_sound(flag_nodes(tag, on)),
{
}

/// The element of a color is written so that it reads back as it is.
pub proof fn lemma_color_nodes_sound(tag: Seq<char>, color: Option<ColorModel>)
    requires
        is_tag_name(tag),
    ensures
        all_sound(opt_color_nodes(tag, color)),
{
    lemma_style_names();
}

/// The element of a font is written so that it reads back as it is.
pub proof fn lemma_font_node_sound(font: FontModel)
    ensures
        node_valid(font_node(font)),
        is_settled(font_node(font)),
{
    lemma_style_names();
    let node = font_node(font);
    let flags = flag_nodes("b"@, font.is_bold) + flag_nodes("i"@, font.is_italic) + flag_nodes(
        "u"@,
        font.is_underline,
    );
    let double = if font.is_double_underline {
        seq![val_node("u"@, "double"@)]
    } else {
        Seq::<Node>::empty()
    };
    let rest = seq![
        val_node("sz"@, decimal(font.size as nat)),
        color_node("color"@, font.color),
        val_node("name"@, font.name),
        val_node("family"@, decimal(font.family as nat)),
        val_node("scheme"@, font_scheme_text(font.font_scheme)),
    ];
    lemma_flag_nodes_sound("b"@, font.is_bold);
    lemma_flag_nodes_sound("i"@, font.is_italic);
    lemma_flag_nodes_sound("u"@, font.is_underline);
    lemma_both_sound(flag_nodes("b"@, font.is_bold), flag_nodes("i"@, font.is_italic));
    lemma_both_sound(
        flag_nodes("b"@, font.is_bold) + flag_nodes("i"@, font.is_italic),
        flag_nodes("u"@, font.is_underline),
    );
    assert(all_sound(double));
    lemma_both_sound(flags, double);
    assert(all_sound(rest));
    lemma_both_sound(flags + double, rest);
    assert(node.children == flags + double + rest);
}

/// The element of a fill is written so that it reads back as it is.
pub proof fn lemma_fill_node_sound(fill: FillModel)
    ensures
        node_valid(fill_node(fill)),
        is_settled(fill_node(fill)),
{
    lemma_style_names();
    lemma_color_nodes_sound("fgColor"@, fill.foreground_color);
    lemma_color_nodes_sound("bgColor"@, fill.background_color);
    lemma_both_sound(
        opt_color_nodes("fgColor"@, fill.foreground_color),
        opt_color_nodes("bgColor"@, fill.background_color),
    );
    let pattern = fill_node(fill).children[0];
    assert(node_valid(pattern) && is_settled(pattern));
}

/// The element of one side of a border is written so that it reads back
/// as it is.
pub proof fn lemma_border_side_node_sound(tag: Seq<char>, side: BorderSideModel)
    requires
        is_tag_name(tag),
    ensures
        node_valid(border_side_node(tag, side)),
        is_settled(border_side_node(tag, side)),
{
    lemma_style_names();
    lemma_color_nodes_sound("color"@, side.border_color);
}

/// The element of a border is written so that it reads back as it is.
pub proof fn lemma_border_node_sound(border: BorderModel)
    ensures
        node_valid(border_node(border)),
        is_settled(border_node(border)),
{
    lemma_style_names();
    lemma_border_side_node_sound("left"@, border.left);
    lemma_border_side_node_sound("right"@, border.right);
    lemma_border_side_node_sound("top"@, border.top);
    lemma_border_side_node_sound("bottom"@, border.bottom);
    lemma_border_side_node_sound("diagonal"@, border.diagonal);
}

/// Attributes whose names can name, one list behind the other, have names
/// that can name.
pub proof fn lemma_attributes_both_valid(
    first: Seq<(Seq<char>, Seq<char>)>,
    second: Seq<(Seq<char>, Seq<char>)>,
)
    requires
        attributes_valid(first),
        attributes_valid(second),
    ensures
        attributes_valid(first + second),
{
    assert forall|i: int| 0 <= i < (first + second).len() implies is_attribute_name(
        (#[trigger] (first + second)[i]).0,
    ) by {
        if i < first.len() {
            assert((first + second)[i] == first[i]);
        } else {
            assert((first + second)[i] == second[i - first.len()]);
        }
    }
}

/// The element of a cell format is written so that it reads back as it
/// is.
pub proof fn lemma_xf_node_sound(xf: CellXfs, with_format_id: bool)
    ensures
        node_valid(xf_node(xf, with_format_id)),
        is_settled(xf_node(xf, with_format_id)),
{
    lemma_style_names();
    let places = seq![
        ("numFmtId"@, decimal(xf.number_format_id as nat)),
        ("fontId"@, decimal(xf.font_id as nat)),
        ("fillId"@, decimal(xf.fill_id as nat)),
        ("borderId"@, decimal(xf.border_id as nat)),
    ];
    let named = if with_format_id {
        seq![("xfId"@, decimal(xf.format_id as nat))]
    } else {
        Seq::<(Seq<char>, Seq<char>)>::empty()
    };
    let a1 = places + named;
    let a2 = a1 + switch_attribute("applyFont"@, xf.apply_font);
    let a3 = a2 + switch_attribute("applyAlignment"@, xf.apply_alignment);
    let a4 = a3 + switch_attribute("applyFill"@, xf.apply_fill);
    let a5 = a4 + switch_attribute("applyBorder"@, xf.apply_border);
    let a6 = a5 + switch_attribute("applyNumberFormat"@, xf.apply_number_format);
    let a7 = a6 + switch_attribute("applyProtection"@, xf.apply_protection);
    assert(attributes_valid(places));
    assert(attributes_valid(named));
    lemma_attributes_both_valid(places, named);
    lemma_attributes_both_valid(a1, switch_attribute("applyFont"@, xf.apply_font));
    lemma_attributes_both_valid(a2, switch_attribute("applyAlignment"@, xf.apply_alignment));
    lemma_attributes_both_valid(a3, switch_attribute("applyFill"@, xf.apply_fill));
    lemma_attributes_both_valid(a4, switch_attribute("applyBorder"@, xf.apply_border));
    lemma_attributes_both_valid(a5, switch_attribute("applyNumberFormat"@, xf.apply_number_format));
    lemma_attributes_both_valid(a6, switch_attribute("applyProtection"@, xf.apply_protection));
    assert(xf_attributes(xf, with_format_id) == a7);
    let vertical = if xf.vertical_alignment != VerticalAlignmentValues::Unset {
        seq![("vertical"@, vertical_alignment_text(xf.vertical_alignment))]
    } else {
        Seq::<(Seq<char>, Seq<char>)>::empty()
    };
    let horizontal = if xf.horizontal_alignment != HorizontalAlignmentValues::Unset {
        seq![("horizontal"@, horizontal_alignment_text(xf.horizontal_alignment))]
    } else {
        Seq::<(Seq<char>, Seq<char>)>::empty()
    };
    assert(attributes_valid(vertical));
    assert(attributes_valid(horizontal));
    lemma_attributes_both_valid(switch_attribute("wrapText"@, xf.is_wrap_text), vertical);
    lemma_attributes_both_valid(
        switch_attribute("wrapText"@, xf.is_wrap_text) + vertical,
        horizontal,
    );
    assert(attributes_valid(alignment_attributes(xf)));
    if has_alignment(xf) {
        let child = xf_node(xf, with_format_id).children[0];
        assert(node_valid(child) && is_settled(child));
    }
}

/// The elements of the style tables are written so that they read back
/// as they are.
pub proof fn lemma_style_nodes_sound(tables: StyleModel)
    ensures
        all_sound(style_nodes(tables)),
{
    lemma_style_names();
    let formats = num_fmts_node(tables.number_formats);
    assert(node_valid(formats) && is_settled(formats)) by {
        assert forall|i: int| 0 <= i < formats.children.len() implies node_valid(
            #[trigger] formats.children[i],
        ) && is_settled(formats.children[i]) by {
            assert(formats.children[i] == num_fmt_node(tables.number_formats[i]));
        }
    }
    let fonts = fonts_node(tables.fonts);
    assert(node_valid(fonts) && is_settled(fonts)) by {
        assert forall|i: int| 0 <= i < fonts.children.len() implies node_valid(
            #[trigger] fonts.children[i],
        ) && is_settled(fonts.children[i]) by {
            lemma_font_node_sound(tables.fonts[i]);
        }
    }
    let fills = fills_node(tables.fills);
    assert(node_valid(fills) && is_settled(fills)) by {
        assert forall|i: int| 0 <= i < fills.children.len() implies node_valid(
            #[trigger] fills.children[i],
        ) && is_settled(fills.children[i]) by {
            lemma_fill_node_sound(tables.fills[i]);
        }
    }
    let borders = borders_node(tables.borders);
    assert(node_valid(borders) && is_settled(borders)) by {
        assert forall|i: int| 0 <= i < borders.children.len() implies node_valid(
            #[trigger] borders.children[i],
        ) && is_settled(borders.children[i]) by {
            lemma_border_node_sound(tables.borders[i]);
        }
    }
    let named = xfs_node(tables.cell_style_xfs, false);
    assert(node_valid(named) && is_settled(named)) by {
        assert forall|i: int| 0 <= i < named.children.len() implies node_valid(
            #[trigger] named.children[i],
        ) && is_settled(named.children[i]) by {
            lemma_xf_node_sound(tables.cell_style_xfs[i], false);
        }
    }
    let cells = xfs_node(tables.cell_xfs, true);
    assert(node_valid(cells) && is_settled(cells)) by {
        assert forall|i: int| 0 <= i < cells.children.len() implies node_valid(
            #[trigger] cells.children[i],
        ) && is_settled(cells.children[i]) by {
            lemma_xf_node_sound(tables.cell_xfs[i], true);
        }
    }
}

/// Round trip of the style tables through the package: a style sheet
/// that has been written when the workbook was closed gives, when it is
/// opened again, the style tables that the workbook had, or fails only
/// because what is kept of the style sheet then cannot be compressed.
/// This holds where the root of the style sheet held no text before.
pub proof fn lemma_styles_read_back(
    files: Seq<FileModel>,
    relations: RelationsModel,
    styles: StyleModel,
)
    requires
        styles.wf(),
        part_path(relations, style_content_spec()) is Ok,
        takes_parts(
            opened_root(
                files,
                part_path(relations, style_content_spec())->Ok_0,
                Some(root_only_node("styleSheet"@, style_content_spec().schemas_namespace@)),
            ),
            Seq::empty(),
        ),
    ensures
        match styles_saved(files, relations, styles) {
            Ok(after) => match opened_styles(
                after,
                part_path(relations, style_content_spec())->Ok_0,
            ) {
                Ok(opened) => opened.0 == styles,
                Err(e) => e == OfficeError::Codec,
            },
            Err(_) => true,
        },
{
    let path = part_path(relations, style_content_spec())->Ok_0;
    let fallback = root_only_node("styleSheet"@, style_content_spec().schemas_namespace@);
    match styles_saved(files, relations, styles) {
        Ok(after) => {
            let root = opened_root(files, path, Some(fallback))->0;
            let children = ordered_nodes(root.children + style_nodes(styles), style_order_tags());
            let written = Node { children, ..root };
            lemma_style_names();
            assert(node_valid(fallback) && is_settled(fallback));
            lemma_opened_root_sound(files, path, fallback);
            lemma_children_sound(root);
            lemma_style_nodes_sound(styles);
            lemma_both_sound(root.children, style_nodes(styles));
            lemma_ordered_sound(root.children + style_nodes(styles), style_order_tags());
            lemma_with_children_sound(root, children);
            lemma_written_file_reads_back(
                after_read(files, path),
                path,
                written,
                style_content_spec().content_type@,
            );
            lemma_saved_styles_read_back(root.children, styles);
        },
        Err(_) => {},
    }
}

/// The style sheet of a new workbook is written so that it reads back as
/// it is.
pub proof fn lemma_new_style_sheet_sound()
    ensures
        node_valid(new_style_sheet_node()),
        is_settled(new_style_sheet_node()),
{
    let tables = crate::style_write::new_style_tables();
    let written = style_nodes(tables);
    let node = new_style_sheet_node();
    lemma_style_names();
    lemma_style_nodes_sound(tables);
    assert(node.children[0] == written[0]);
    assert(node.children[1] == written[1]);
    assert(node.children[2] == written[2]);
    assert(node.children[3] == written[3]);
    assert(node.children[4] == written[5]);
    assert(node.children[5] == written[4]);
    assert forall|i: int| 0 <= i < node.children.len() implies node_valid(
        #[trigger] node.children[i],
    ) && is_settled(node.children[i]) by {}
}

/// The root's subtree of a style sheet of which the tables have been
/// taken is written so that it reads back as it is, where the style
/// sheet was.
pub proof fn lemma_without_tables_sound(root: Node)
    requires
        node_valid(root),
        is_settled(root),
        without_tables(Some(root)) is Some,
    ensures
        node_valid(without_tables(Some(root))->0),
        is_settled(without_tables(Some(root))->0),
        without_tables(Some(root))->0.value == root.value,
        root.children.len() == 0 ==> without_tables(Some(root))->0.children.len() == 0,
{
    let r1 = pruned(root, "numFmts"@);
    let r2 = pruned(r1, "fonts"@);
    let r3 = pruned(r2, "fills"@);
    let r4 = pruned(r3, "borders"@);
    let r5 = pruned(r4, "cellStyleXfs"@);
    lemma_pruned_sound(root, "numFmts"@);
    lemma_pruned_sound(r1, "fonts"@);
    lemma_pruned_sound(r2, "fills"@);
    lemma_pruned_sound(r3, "borders"@);
    lemma_pruned_sound(r4, "cellStyleXfs"@);
    lemma_pruned_sound(r5, "cellXfs"@);
}

/// Round trip of the style tables: the style tables that are read when a
/// style sheet is opened are read again when the style sheet has been
/// written and is opened again, unless what is kept of it then cannot be
/// compressed. This holds where the root of the style
/// sheet holds no text, which would be written in the place of the
/// tables, and where the workbook's relationships lead to the style
/// sheet.
pub proof fn lemma_styles_round_trip(
    files: Seq<FileModel>,
    relations: RelationsModel,
    path: Seq<char>,
)
    requires
        part_path(relations, style_content_spec()) == Ok::<Seq<char>, OfficeError>(path),
        opened_root(files, path, Some(new_style_sheet_node())) matches Some(root) ==> root.value
            is None,
    ensures
        match opened_styles(files, path) {
            Ok((styles, opened)) => match styles_saved(opened, relations, styles) {
                Ok(saved) => match opened_styles(saved, path) {
                    Ok(again) => again.0 == styles,
                    Err(e) => e == OfficeError::Codec,
                },
                Err(_) => true,
            },
            Err(_) => true,
        },
{
    let kind = style_content_spec().content_type@;
    let fallback = new_style_sheet_node();
    match opened_styles(files, path) {
        Ok((styles, opened)) => {
            let root = opened_root(files, path, Some(fallback))->0;
            lemma_style_names();
            lemma_new_style_sheet_sound();
            lemma_opened_root_sound(files, path, fallback);
            match without_tables(Some(root)) {
                Some(left) => {
                    lemma_without_tables_sound(root);
                    lemma_settled_is_canonical(left);
                    lemma_written_file_reads_back(after_read(files, path), path, left, kind);
                    lemma_styles_read_back(opened, relations, styles);
                },
                None => {
                    lemma_rootless_file(after_read(files, path), path, kind);
                },
            }
        },
        Err(_) => {},
    }
}

/// Taking the style tables out of nodes a second time takes nothing
/// more.
pub proof fn lemma_tables_taken_twice(nodes: Seq<Node>)
    ensures
        tables_taken(tables_taken(nodes)) == tables_taken(nodes),
{
    let c1 = pruned_all(nodes, "numFmts"@);
    let c2 = pruned_all(c1, "fonts"@);
    let c3 = pruned_all(c2, "fills"@);
    let c4 = pruned_all(c3, "borders"@);
    let c5 = pruned_all(c4, "cellStyleXfs"@);
    let c6 = pruned_all(c5, "cellXfs"@);
    lemma_pruned_all_twice(nodes, "numFmts"@);
    lemma_pruned_all_commute(c1, "fonts"@, "numFmts"@);
    assert(pruned_all(c2, "numFmts"@) == c2);
    lemma_pruned_all_commute(c2, "fills"@, "numFmts"@);
    assert(pruned_all(c3, "numFmts"@) == c3);
    lemma_pruned_all_commute(c3, "borders"@, "numFmts"@);
    assert(pruned_all(c4, "numFmts"@) == c4);
    lemma_pruned_all_commute(c4, "cellStyleXfs"@, "numFmts"@);
    assert(pruned_all(c5, "numFmts"@) == c5);
    lemma_pruned_all_commute(c5, "cellXfs"@, "numFmts"@);
    assert(pruned_all(c6, "numFmts"@) == c6);
    lemma_pruned_all_twice(c1, "fonts"@);
    lemma_pruned_all_commute(c2, "fills"@, "fonts"@);
    assert(pruned_all(c3, "fonts"@) == c3);
    lemma_pruned_all_commute(c3, "borders"@, "fonts"@);
    assert(pruned_all(c4, "fonts"@) == c4);
    lemma_pruned_all_commute(c4, "cellStyleXfs"@, "fonts"@);
    assert(pruned_all(c5, "fonts"@) == c5);
    lemma_pruned_all_commute(c5, "cellXfs"@, "fonts"@);
    assert(pruned_all(c6, "fonts"@) == c6);
    lemma_pruned_all_twice(c2, "fills"@);
    lemma_pruned_all_commute(c3, "borders"@, "fills"@);
    assert(pruned_all(c4, "fills"@) == c4);
    lemma_pruned_all_commute(c4, "cellStyleXfs"@, "fills"@);
    assert(pruned_all(c5, "fills"@) == c5);
    lemma_pruned_all_commute(c5, "cellXfs"@, "fills"@);
    assert(pruned_all(c6, "fills"@) == c6);
    lemma_pruned_all_twice(c3, "borders"@);
    lemma_pruned_all_commute(c4, "cellStyleXfs"@, "borders"@);
    assert(pruned_all(c5, "borders"@) == c5);
    lemma_pruned_all_commute(c5, "cellXfs"@, "borders"@);
    assert(pruned_all(c6, "borders"@) == c6);
    lemma_pruned_all_twice(c4, "cellStyleXfs"@);
    lemma_pruned_all_commute(c5, "cellXfs"@, "cellStyleXfs"@);
    assert(pruned_all(c6, "cellStyleXfs"@) == c6);
    lemma_pruned_all_twice(c5, "cellXfs"@);
}

/// Taking the style tables out of two lists of nodes takes them out of
/// each.
pub proof fn lemma_tables_taken_both(first: Seq<Node>, second: Seq<Node>)
    ensures
        tables_taken(first + second) == tables_taken(first) + tables_taken(second),
{
    let a1 = pruned_all(first, "numFmts"@);
    let a2 = pruned_all(a1, "fonts"@);
    let a3 = pruned_all(a2, "fills"@);
    let a4 = pruned_all(a3, "borders"@);
    let a5 = pruned_all(a4, "cellStyleXfs"@);
    let b1 = pruned_all(second, "numFmts"@);
    let b2 = pruned_all(b1, "fonts"@);
    let b3 = pruned_all(b2, "fills"@);
    let b4 = pruned_all(b3, "borders"@);
    let b5 = pruned_all(b4, "cellStyleXfs"@);
    lemma_pruned_all_both(first, second, "numFmts"@);
    lemma_pruned_all_both(a1, b1, "fonts"@);
    lemma_pruned_all_both(a2, b2, "fills"@);
    lemma_pruned_all_both(a3, b3, "borders"@);
    lemma_pruned_all_both(a4, b4, "cellStyleXfs"@);
    lemma_pruned_all_both(a5, b5, "cellXfs"@);
}

/// It does not matter whether the style tables are taken out of nodes
/// before or after the nodes are put in order.
pub proof fn lemma_tables_taken_ordered(nodes: Seq<Node>, order: Seq<Seq<char>>)
    ensures
        tables_taken(ordered_nodes(nodes, order)) == ordered_nodes(tables_taken(nodes), order),
{
    let a1 = pruned_all(nodes, "numFmts"@);
    let a2 = pruned_all(a1, "fonts"@);
    let a3 = pruned_all(a2, "fills"@);
    let a4 = pruned_all(a3, "borders"@);
    let a5 = pruned_all(a4, "cellStyleXfs"@);
    lemma_pruned_ordered(nodes, order, "numFmts"@);
    lemma_pruned_ordered(a1, order, "fonts"@);
    lemma_pruned_ordered(a2, order, "fills"@);
    lemma_pruned_ordered(a3, order, "borders"@);
    lemma_pruned_ordered(a4, order, "cellStyleXfs"@);
    lemma_pruned_ordered(a5, order, "cellXfs"@);
}

/// Nothing is left of the elements of the style tables when the style
/// tables are taken.
pub proof fn lemma_tables_taken_of_tables(tables: StyleModel)
    ensures
        tables_taken(style_nodes(tables)) == Seq::<Node>::empty(),
{
    let nodes = style_nodes(tables);
    let n0 = set![
        "numFmts"@,
        "fonts"@,
        "fills"@,
        "borders"@,
        "cellStyleXfs"@,
        "cellXfs"@,
    ];
    let a1 = pruned_all(nodes, "numFmts"@);
    let a2 = pruned_all(a1, "fonts"@);
    let a3 = pruned_all(a2, "fills"@);
    let a4 = pruned_all(a3, "borders"@);
    let a5 = pruned_all(a4, "cellStyleXfs"@);
    let a6 = pruned_all(a5, "cellXfs"@);
    assert(all_named(nodes, n0));
    lemma_pruned_names(nodes, n0, "numFmts"@);
    lemma_pruned_names(a1, n0.remove("numFmts"@), "fonts"@);
    lemma_pruned_names(a2, n0.remove("numFmts"@).remove("fonts"@), "fills"@);
    lemma_pruned_names(a3, n0.remove("numFmts"@).remove("fonts"@).remove("fills"@), "borders"@);
    lemma_pruned_names(
        a4,
        n0.remove("numFmts"@).remove("fonts"@).remove("fills"@).remove("borders"@),
        "cellStyleXfs"@,
    );
    lemma_pruned_names(
        a5,
        n0.remove("numFmts"@).remove("fonts"@).remove("fills"@).remove("borders"@).remove(
            "cellStyleXfs"@,
        ),
        "cellXfs"@,
    );
    if a6.len() > 0 {
        let tag = a6[0].tag;
        assert(n0.remove("numFmts"@).remove("fonts"@).remove("fills"@).remove("borders"@).remove(
            "cellStyleXfs"@,
        ).remove("cellXfs"@).contains(tag));
        assert(false);
    }
    assert(a6 =~= Seq::<Node>::empty());
}

/// Byte-for-byte round trip of the style sheet: a style sheet that has
/// been opened and written, and is opened and written again, holds the
/// same bytes as after it was written first; opening it again fails
/// only where what is kept of it then cannot be compressed. This holds
/// where the root of
/// the style sheet holds no text, and where the workbook's relationships
/// lead to the style sheet.
pub proof fn lemma_styles_saved_again(
    files: Seq<FileModel>,
    relations: RelationsModel,
    path: Seq<char>,
)
    requires
        part_path(relations, style_content_spec()) == Ok::<Seq<char>, OfficeError>(path),
        opened_root(files, path, Some(new_style_sheet_node())) matches Some(root) ==> root.value
            is None,
    ensures
        match opened_styles(files, path) {
            Ok((styles, opened)) => match styles_saved(opened, relations, styles) {
                Ok(saved) => match opened_styles(saved, path) {
                    Ok(again) => styles_saved(again.1, relations, again.0) matches Ok(resaved)
                        && bytes_of(resaved, path) == bytes_of(saved, path),
                    Err(e) => e == OfficeError::Codec,
                },
                Err(_) => true,
            },
            Err(_) => true,
        },
{
    let kind = style_content_spec().content_type@;
    let fallback = new_style_sheet_node();
    let order = style_order_tags();
    match opened_styles(files, path) {
        Ok((styles, opened)) => {
            let root = opened_root(files, path, Some(fallback))->0;
            let added = style_nodes(styles);
            lemma_style_names();
            lemma_new_style_sheet_sound();
            lemma_opened_root_sound(files, path, fallback);
            lemma_without_tables_root(root);
            match without_tables(Some(root)) {
                Some(left) => {
                    lemma_without_tables_sound(root);
                    lemma_settled_is_canonical(left);
                    lemma_written_file_reads_back(after_read(files, path), path, left, kind);
                    lemma_styles_round_trip(files, relations, path);
                    match styles_saved(opened, relations, styles) {
                        Ok(saved) => {
                            let children = ordered_nodes(left.children + added, order);
                            let written = Node { children, ..left };
                            lemma_children_sound(left);
                            lemma_style_nodes_sound(styles);
                            lemma_both_sound(left.children, added);
                            lemma_ordered_sound(left.children + added, order);
                            lemma_with_children_sound(left, children);
                            lemma_written_file_reads_back(
                                after_read(opened, path),
                                path,
                                written,
                                kind,
                            );
                            let reopened = opened_styles(saved, path)->Ok_0.1;
                            lemma_without_tables_root(written);
                            lemma_tables_taken_ordered(left.children + added, order);
                            lemma_tables_taken_both(left.children, added);
                            lemma_tables_taken_twice(root.children);
                            lemma_tables_taken_of_tables(styles);
                            assert(tables_taken(left.children) + tables_taken(added)
                                =~= left.children);
                            let again = Node {
                                children: ordered_nodes(left.children, order),
                                ..left
                            };
                            assert(without_tables(Some(written)) == Some(again));
                            lemma_without_tables_sound(written);
                            lemma_settled_is_canonical(again);
                            lemma_written_file_reads_back(
                                after_read(saved, path),
                                path,
                                again,
                                kind,
                            );
                            lemma_ordered_again(left.children, added, order);
                            lemma_written_file_reads_back(
                                after_read(reopened, path),
                                path,
                                written,
                                kind,
                            );
                        },
                        Err(_) => {},
                    }
                },
                None => {
                    lemma_rootless_file(after_read(files, path), path, kind);
                },
            }
        },
        Err(_) => {},
    }
}

} // verus!
