//! Writing the style tables as XML: one subtree for each table, in the
//! order of the tables, with one child for each entry in the entry's place.

use vstd::prelude::*;
use crate::error::OfficeError;
use crate::style::{StylePart, borders_view, fills_view, fonts_view, formats_view};
use crate::style_models::{
    BorderModel, BorderSetting, BorderSideModel, BorderStyle, BorderStyleValues, CellXfs,
    ColorModel, ColorSetting, ColorSettingTypeValues, FillModel, FillStyle, FontModel,
    FontSchemeValues, FontStyle, HorizontalAlignmentValues, NumberFormat, NumberFormatModel,
    PatternTypeValues, VerticalAlignmentValues, border_style_text, color_kind_text,
    font_scheme_text, horizontal_alignment_text, opt_color, pattern_type_text,
    vertical_alignment_text,
};
use crate::element_dictionary::{style_content, style_content_spec};
use crate::order_dictionary::{style_order, style_order_tags};
use crate::relations::{RelationsPart, paths_view};
use crate::style_models::CellXfs as Xf;
use crate::style_tables::StyleModel;
use crate::xml_node::ordered_nodes;
use crate::text::{decimal, decimal_string};
use crate::xml_document::XmlDocument;
use crate::xml_node::{Node, XmlNode};

verus! {

/// An element with attributes and children and without text.
pub open spec fn element(
    tag: Seq<char>,
    attributes: Seq<(Seq<char>, Seq<char>)>,
    children: Seq<Node>,
) -> Node {
    Node { tag, attributes, value: None, children }
}

/// An element whose one attribute `val` holds `value`.
pub open spec fn val_node(tag: Seq<char>, value: Seq<char>) -> Node {
    element(tag, seq![("val"@, value)], Seq::empty())
}

/// The attribute that gives the number of entries of a table.
pub open spec fn count_attribute(count: nat) -> Seq<(Seq<char>, Seq<char>)> {
    seq![("count"@, decimal(count))]
}

/// A color as an element named `tag`: its one attribute is named by the
/// way in which the color is given and holds the color's value.
pub open spec fn color_node(tag: Seq<char>, color: ColorModel) -> Node {
    element(tag, seq![(color_kind_text(color.kind), color.value)], Seq::empty())
}

/// The element of a color where there is one, and nothing else.
pub open spec fn opt_color_nodes(tag: Seq<char>, color: Option<ColorModel>) -> Seq<Node> {
    match color {
        Some(c) => seq![color_node(tag, c)],
        None => Seq::empty(),
    }
}

/// An empty element named `tag` where `on` holds, and nothing else.
pub open spec fn flag_nodes(tag: Seq<char>, on: bool) -> Seq<Node> {
    if on {
        seq![Node::leaf(tag)]
    } else {
        Seq::empty()
    }
}

/// A custom number format as an element.
pub open spec fn num_fmt_node(format: NumberFormatModel) -> Node {
    element(
        "numFmt"@,
        seq![("numFmtId"@, decimal(format.format_id as nat)), ("formatCode"@, format.format_code)],
        Seq::empty(),
    )
}

/// A font as an element: what is set of bold, italic and the two
/// underlines, then size, color, name, family and scheme.
pub open spec fn font_node(font: FontModel) -> Node {
    element(
        "font"@,
        Seq::empty(),
        flag_nodes("b"@, font.is_bold) + flag_nodes("i"@, font.is_italic) + flag_nodes(
            "u"@,
            font.is_underline,
        ) + (if font.is_double_underline {
            seq![val_node("u"@, "double"@)]
        } else {
            Seq::empty()
        }) + seq![
            val_node("sz"@, decimal(font.size as nat)),
            color_node("color"@, font.color),
            val_node("name"@, font.name),
            val_node("family"@, decimal(font.family as nat)),
            val_node("scheme"@, font_scheme_text(font.font_scheme)),
        ],
    )
}

/// A fill as an element: its pattern with the foreground and background
/// colors that it has.
pub open spec fn fill_node(fill: FillModel) -> Node {
    element(
        "fill"@,
        Seq::empty(),
        seq![
            element(
                "patternFill"@,
                seq![("patternType"@, pattern_type_text(fill.pattern_type))],
                opt_color_nodes("fgColor"@, fill.foreground_color) + opt_color_nodes(
                    "bgColor"@,
                    fill.background_color,
                ),
            ),
        ],
    )
}

/// One side of a border as an element named `tag`: with the line's style
/// where the side has a line, and with the color that the side has.
pub open spec fn border_side_node(tag: Seq<char>, side: BorderSideModel) -> Node {
    element(
        tag,
        if side.style == BorderStyleValues::Unset {
            Seq::empty()
        } else {
            seq![("style"@, border_style_text(side.style))]
        },
        opt_color_nodes("color"@, side.border_color),
    )
}

/// A border as an element: left, right, top, bottom, diagonal.
pub open spec fn border_node(border: BorderModel) -> Node {
    element(
        "border"@,
        Seq::empty(),
        seq![
            border_side_node("left"@, border.left),
            border_side_node("right"@, border.right),
            border_side_node("top"@, border.top),
            border_side_node("bottom"@, border.bottom),
            border_side_node("diagonal"@, border.diagonal),
        ],
    )
}

/// The attribute of a switch: written with the switch's value where the switch
/// is set, and not at all where it is not.
pub open spec fn switch_attribute(name: Seq<char>, value: u8) -> Seq<(Seq<char>, Seq<char>)> {
    if value > 0 {
        seq![(name, decimal(value as nat))]
    } else {
        Seq::empty()
    }
}

/// The attributes of a cell format: the four places, the place of the
/// named style where `with_format_id` holds, and the switches that are set.
pub open spec fn xf_attributes(xf: CellXfs, with_format_id: bool) -> Seq<(Seq<char>, Seq<char>)> {
    seq![
        ("numFmtId"@, decimal(xf.number_format_id as nat)),
        ("fontId"@, decimal(xf.font_id as nat)),
        ("fillId"@, decimal(xf.fill_id as nat)),
        ("borderId"@, decimal(xf.border_id as nat)),
    ] + (if with_format_id {
        seq![("xfId"@, decimal(xf.format_id as nat))]
    } else {
        Seq::empty()
    }) + switch_attribute("applyFont"@, xf.apply_font) + switch_attribute(
        "applyAlignment"@,
        xf.apply_alignment,
    ) + switch_attribute("applyFill"@, xf.apply_fill) + switch_attribute("applyBorder"@, xf.apply_border)
        + switch_attribute("applyNumberFormat"@, xf.apply_number_format) + switch_attribute(
        "applyProtection"@,
        xf.apply_protection,
    )
}

/// Whether a cell format says anything of alignment.
pub open spec fn has_alignment(xf: CellXfs) -> bool {
    xf.is_wrap_text > 0 || xf.vertical_alignment != VerticalAlignmentValues::Unset
        || xf.horizontal_alignment != HorizontalAlignmentValues::Unset
}

/// The attributes of a cell format's alignment: what is set of wrapping,
/// vertical and horizontal alignment.
pub open spec fn alignment_attributes(xf: CellXfs) -> Seq<(Seq<char>, Seq<char>)> {
    switch_attribute("wrapText"@, xf.is_wrap_text) + (if xf.vertical_alignment
        != VerticalAlignmentValues::Unset {
        seq![("vertical"@, vertical_alignment_text(xf.vertical_alignment))]
    } else {
        Seq::empty()
    }) + (if xf.horizontal_alignment != HorizontalAlignmentValues::Unset {
        seq![("horizontal"@, horizontal_alignment_text(xf.horizontal_alignment))]
    } else {
        Seq::empty()
    })
}

/// A cell format as an element, with its alignment as a child where it
/// says anything of alignment.
pub open spec fn xf_node(xf: CellXfs, with_format_id: bool) -> Node {
    element(
        "xf"@,
        xf_attributes(xf, with_format_id),
        if has_alignment(xf) {
            seq![element("alignment"@, alignment_attributes(xf), Seq::empty())]
        } else {
            Seq::empty()
        },
    )
}

/// The table of number formats as an element.
pub open spec fn num_fmts_node(formats: Seq<NumberFormatModel>) -> Node {
    element(
        "numFmts"@,
        count_attribute(formats.len()),
        Seq::new(formats.len(), |i: int| num_fmt_node(formats[i])),
    )
}

/// The table of fonts as an element.
pub open spec fn fonts_node(fonts: Seq<FontModel>) -> Node {
    element(
        "fonts"@,
        count_attribute(fonts.len()),
        Seq::new(fonts.len(), |i: int| font_node(fonts[i])),
    )
}

/// The table of fills as an element.
pub open spec fn fills_node(fills: Seq<FillModel>) -> Node {
    element(
        "fills"@,
        count_attribute(fills.len()),
        Seq::new(fills.len(), |i: int| fill_node(fills[i])),
    )
}

/// The table of borders as an element.
pub open spec fn borders_node(borders: Seq<BorderModel>) -> Node {
    element(
        "borders"@,
        count_attribute(borders.len()),
        Seq::new(borders.len(), |i: int| border_node(borders[i])),
    )
}

/// A table of cell formats as an element: `cellXfs`, whose entries name
/// their named style, where `with_format_id` holds, else `cellStyleXfs`.
pub open spec fn xfs_node(xfs: Seq<CellXfs>, with_format_id: bool) -> Node {
    element(
        if with_format_id {
            "cellXfs"@
        } else {
            "cellStyleXfs"@
        },
        count_attribute(xfs.len()),
        Seq::new(xfs.len(), |i: int| xf_node(xfs[i], with_format_id)),
    )
}

/// The six tables as elements, in the order in which they are written
/// into a style sheet: number formats, fonts, fills, borders, the formats
/// of the cells, the formats of the named styles. Closing a style sheet
/// puts them in the order of the schema afterwards.
pub open spec fn style_nodes(tables: StyleModel) -> Seq<Node> {
    seq![
        num_fmts_node(tables.number_formats),
        fonts_node(tables.fonts),
        fills_node(tables.fills),
        borders_node(tables.borders),
        xfs_node(tables.cell_xfs, true),
        xfs_node(tables.cell_style_xfs, false),
    ]
}

/// An element named `tag` with the one attribute `name`.
fn single_attribute_node(tag: &str, name: &str, value: String) -> (node: XmlNode)
    ensures
        node@ == element(tag@, seq![(name@, value@)], Seq::empty()),
{
    let mut node = XmlNode::new(tag);
    node.push_attribute(name, value);
    assert(node@.attributes =~= seq![(name@, value@)]);
    node
}

/// An element named `tag` with the attribute `count`.
fn table_node(tag: &str, count: usize) -> (node: XmlNode)
    ensures
        node@ == element(tag@, count_attribute(count as nat), Seq::empty()),
{
    single_attribute_node(tag, "count", decimal_string(count as u128))
}

/// Adds the attribute of a switch to `node` where the switch is set.
fn push_switch_attribute(node: &mut XmlNode, name: &str, value: u8)
    ensures
        final(node)@ == (Node {
            attributes: old(node)@.attributes + switch_attribute(name@, value),
            ..old(node)@
        }),
{
    if value > 0 {
        node.push_attribute(name, decimal_string(value as u128));
        assert(node@.attributes =~= old(node)@.attributes + switch_attribute(name@, value));
    } else {
        assert(node@.attributes =~= old(node)@.attributes + switch_attribute(name@, value));
    }
}

impl StylePart {
    /// Adds the color as a child named `tag` of `parent` where there is a
    /// color.
    pub(crate) fn add_color_element(
        color_setting: &Option<ColorSetting>,
        parent: &mut XmlNode,
        tag: &str,
    )
        ensures
            final(parent)@ == (Node {
                children: old(parent)@.children + opt_color_nodes(tag@, opt_color(*color_setting)),
                ..old(parent)@
            }),
    {
        match color_setting {
            Some(color) => {
                let name = ColorSettingTypeValues::get_string(color.color_setting_type);
                let node = single_attribute_node(tag, name.as_str(), color.value.clone());
                parent.push_child(node);
                assert(parent@.children =~= old(parent)@.children + opt_color_nodes(
                    tag@,
                    opt_color(*color_setting),
                ));
            },
            None => {
                assert(parent@.children =~= old(parent)@.children + opt_color_nodes(
                    tag@,
                    opt_color(*color_setting),
                ));
            },
        }
    }

    /// Adds one side of a border as a child named `border_side` of
    /// `border`.
    pub(crate) fn add_border_element(
        border_side: &str,
        border: &mut XmlNode,
        border_data: &BorderSetting,
    )
        ensures
            final(border)@ == (Node {
                children: old(border)@.children.push(border_side_node(border_side@, border_data@)),
                ..old(border)@
            }),
    {
        let mut side = XmlNode::new(border_side);
        if border_data.style != BorderStyleValues::Unset {
            side.push_attribute("style", BorderStyleValues::get_string(border_data.style));
        }
        Self::add_color_element(&border_data.border_color, &mut side, "color");
        assert(side@.attributes =~= border_side_node(border_side@, border_data@).attributes);
        assert(side@.children =~= opt_color_nodes("color"@, opt_color(border_data.border_color)));
        border.push_child(side);
    }

    /// The element of a font.
    fn font_element(font_style: &FontStyle) -> (node: XmlNode)
        ensures
            node@ == font_node(font_style@),
    {
        let mut font = XmlNode::new("font");
        if font_style.is_bold {
            font.push_child(XmlNode::new("b"));
        }
        if font_style.is_italic {
            font.push_child(XmlNode::new("i"));
        }
        if font_style.is_underline {
            font.push_child(XmlNode::new("u"));
        }
        if font_style.is_double_underline {
            font.push_child(single_attribute_node("u", "val", "double".to_owned()));
        }
        font.push_child(single_attribute_node("sz", "val", decimal_string(font_style.size as u128)));
        Self::add_color_element(&Some(font_style.color.duplicate()), &mut font, "color");
        font.push_child(single_attribute_node("name", "val", font_style.name.clone()));
        font.push_child(
            single_attribute_node("family", "val", decimal_string(font_style.family as u128)),
        );
        font.push_child(
            single_attribute_node(
                "scheme",
                "val",
                FontSchemeValues::get_string(font_style.font_scheme),
            ),
        );
        assert(font@.children =~= font_node(font_style@).children);
        font
    }

    /// The element of a fill.
    fn fill_element(fill_data: &FillStyle) -> (node: XmlNode)
        ensures
            node@ == fill_node(fill_data@),
    {
        let mut pattern = single_attribute_node(
            "patternFill",
            "patternType",
            PatternTypeValues::get_string(fill_data.pattern_type),
        );
        Self::add_color_element(&fill_data.foreground_color, &mut pattern, "fgColor");
        Self::add_color_element(&fill_data.background_color, &mut pattern, "bgColor");
        assert(pattern@.children =~= opt_color_nodes("fgColor"@, fill_data@.foreground_color)
            + opt_color_nodes("bgColor"@, fill_data@.background_color));
        let mut fill = XmlNode::new("fill");
        fill.push_child(pattern);
        assert(fill@.children =~= fill_node(fill_data@).children);
        fill
    }

    /// The element of a border.
    fn border_element(border_data: &BorderStyle) -> (node: XmlNode)
        ensures
            node@ == border_node(border_data@),
    {
        let mut border = XmlNode::new("border");
        Self::add_border_element("left", &mut border, &border_data.left);
        Self::add_border_element("right", &mut border, &border_data.right);
        Self::add_border_element("top", &mut border, &border_data.top);
        Self::add_border_element("bottom", &mut border, &border_data.bottom);
        Self::add_border_element("diagonal", &mut border, &border_data.diagonal);
        assert(border@.children =~= border_node(border_data@).children);
        border
    }

    /// The element of a cell format.
    fn xf_element(xfs: &CellXfs, enable_format_id: bool) -> (node: XmlNode)
        ensures
            node@ == xf_node(*xfs, enable_format_id),
    {
        let mut xf = XmlNode::new("xf");
        xf.push_attribute("numFmtId", decimal_string(xfs.number_format_id as u128));
        xf.push_attribute("fontId", decimal_string(xfs.font_id as u128));
        xf.push_attribute("fillId", decimal_string(xfs.fill_id as u128));
        xf.push_attribute("borderId", decimal_string(xfs.border_id as u128));
        if enable_format_id {
            xf.push_attribute("xfId", decimal_string(xfs.format_id as u128));
        }
        push_switch_attribute(&mut xf, "applyFont", xfs.apply_font);
        push_switch_attribute(&mut xf, "applyAlignment", xfs.apply_alignment);
        push_switch_attribute(&mut xf, "applyFill", xfs.apply_fill);
        push_switch_attribute(&mut xf, "applyBorder", xfs.apply_border);
        push_switch_attribute(&mut xf, "applyNumberFormat", xfs.apply_number_format);
        push_switch_attribute(&mut xf, "applyProtection", xfs.apply_protection);
        assert(xf@.attributes =~= xf_attributes(*xfs, enable_format_id));
        if xfs.is_wrap_text > 0 || xfs.vertical_alignment != VerticalAlignmentValues::Unset
            || xfs.horizontal_alignment != HorizontalAlignmentValues::Unset {
            let mut alignment = XmlNode::new("alignment");
            push_switch_attribute(&mut alignment, "wrapText", xfs.is_wrap_text);
            if xfs.vertical_alignment != VerticalAlignmentValues::Unset {
                alignment.push_attribute(
                    "vertical",
                    VerticalAlignmentValues::get_string(xfs.vertical_alignment),
                );
            }
            if xfs.horizontal_alignment != HorizontalAlignmentValues::Unset {
                alignment.push_attribute(
                    "horizontal",
                    HorizontalAlignmentValues::get_string(xfs.horizontal_alignment),
                );
            }
            assert(alignment@.attributes =~= alignment_attributes(*xfs));
            xf.push_child(alignment);
        }
        assert(xf@.children =~= xf_node(*xfs, enable_format_id).children);
        xf
    }

    /// The element of a table of cell formats.
    pub(crate) fn add_cell_style(xfs_data: &Vec<CellXfs>, enable_format_id: bool) -> (node: XmlNode)
        ensures
            node@ == xfs_node(xfs_data@, enable_format_id),
    {
        let mut table = table_node(
            if enable_format_id {
                "cellXfs"
            } else {
                "cellStyleXfs"
            },
            xfs_data.len(),
        );
        let mut i: usize = 0;
        while i < xfs_data.len()
            invariant
                i <= xfs_data.len(),
                table@.tag == xfs_node(xfs_data@, enable_format_id).tag,
                table@.attributes == count_attribute(xfs_data.len() as nat),
                table@.value is None,
                table@.children == Seq::new(
                    i as nat,
                    |k: int| xf_node(xfs_data@[k], enable_format_id),
                ),
            decreases xfs_data.len() - i,
        {
            table.push_child(Self::xf_element(&xfs_data[i], enable_format_id));
            i += 1;
            assert(table@.children =~= Seq::new(
                i as nat,
                |k: int| xf_node(xfs_data@[k], enable_format_id),
            ));
        }
        table
    }

    /// The element of the table of number formats.
    fn number_formats_element(formats: &Vec<NumberFormat>) -> (node: XmlNode)
        ensures
            node@ == num_fmts_node(formats_view(formats@)),
    {
        let mut table = table_node("numFmts", formats.len());
        let ghost all = formats_view(formats@);
        let mut i: usize = 0;
        while i < formats.len()
            invariant
                i <= formats.len(),
                all == formats_view(formats@),
                table@.tag == "numFmts"@,
                table@.attributes == count_attribute(formats.len() as nat),
                table@.value is None,
                table@.children == Seq::new(i as nat, |k: int| num_fmt_node(all[k])),
            decreases formats.len() - i,
        {
            let mut node = XmlNode::new("numFmt");
            node.push_attribute("numFmtId", decimal_string(formats[i].format_id as u128));
            node.push_attribute("formatCode", formats[i].format_code.clone());
            assert(node@.attributes =~= num_fmt_node(all[i as int]).attributes);
            table.push_child(node);
            i += 1;
            assert(table@.children =~= Seq::new(i as nat, |k: int| num_fmt_node(all[k])));
        }
        table
    }

    /// The element of the table of fonts.
    fn fonts_element(fonts: &Vec<FontStyle>) -> (node: XmlNode)
        ensures
            node@ == fonts_node(fonts_view(fonts@)),
    {
        let mut table = table_node("fonts", fonts.len());
        let ghost all = fonts_view(fonts@);
        let mut i: usize = 0;
        while i < fonts.len()
            invariant
                i <= fonts.len(),
                all == fonts_view(fonts@),
                table@.tag == "fonts"@,
                table@.attributes == count_attribute(fonts.len() as nat),
                table@.value is None,
                table@.children == Seq::new(i as nat, |k: int| font_node(all[k])),
            decreases fonts.len() - i,
        {
            table.push_child(Self::font_element(&fonts[i]));
            i += 1;
            assert(table@.children =~= Seq::new(i as nat, |k: int| font_node(all[k])));
        }
        table
    }

    /// The element of the table of fills.
    fn fills_element(fills: &Vec<FillStyle>) -> (node: XmlNode)
        ensures
            node@ == fills_node(fills_view(fills@)),
    {
        let mut table = table_node("fills", fills.len());
        let ghost all = fills_view(fills@);
        let mut i: usize = 0;
        while i < fills.len()
            invariant
                i <= fills.len(),
                all == fills_view(fills@),
                table@.tag == "fills"@,
                table@.attributes == count_attribute(fills.len() as nat),
                table@.value is None,
                table@.children == Seq::new(i as nat, |k: int| fill_node(all[k])),
            decreases fills.len() - i,
        {
            table.push_child(Self::fill_element(&fills[i]));
            i += 1;
            assert(table@.children =~= Seq::new(i as nat, |k: int| fill_node(all[k])));
        }
        table
    }

    /// The element of the table of borders.
    fn borders_element(borders: &Vec<BorderStyle>) -> (node: XmlNode)
        ensures
            node@ == borders_node(borders_view(borders@)),
    {
        let mut table = table_node("borders", borders.len());
        let ghost all = borders_view(borders@);
        let mut i: usize = 0;
        while i < borders.len()
            invariant
                i <= borders.len(),
                all == borders_view(borders@),
                table@.tag == "borders"@,
                table@.attributes == count_attribute(borders.len() as nat),
                table@.value is None,
                table@.children == Seq::new(i as nat, |k: int| border_node(all[k])),
            decreases borders.len() - i,
        {
            table.push_child(Self::border_element(&borders[i]));
            i += 1;
            assert(table@.children =~= Seq::new(i as nat, |k: int| border_node(all[k])));
        }
        table
    }

    /// Writes the tables into the document: the six subtrees of the tables
    /// are hung behind the children of the root, in the order number
    /// formats, fonts, fills, borders, formats of the cells, formats of the
    /// named styles. A document without a root is refused and left as it
    /// was.
    pub fn save_content_to_tree_mut(&self, xml_document: &mut XmlDocument) -> (res: Result<
        (),
        OfficeError,
    >)
        requires
            old(xml_document).wf(),
        ensures
            final(xml_document).wf(),
            match old(xml_document)@.parent_or_root(None) {
                Some(root) => res is Ok && final(xml_document)@.has(root) && final(xml_document)@.root_id == old(xml_document)@.root_id && final(xml_document)@.tree(root) == (Node {
                    children: old(xml_document)@.tree(root).children + style_nodes(self@),
                    ..old(xml_document)@.tree(root)
                }),
                None => res == Err::<(), OfficeError>(OfficeError::NotFound) && final(xml_document)@ == old(xml_document)@,
            },
    {
        let root = match xml_document.get_root_id() {
            Some(r) => r,
            None => {
                return Err(OfficeError::NotFound);
            },
        };
        if xml_document.get_element(root).is_none() {
            return Err(OfficeError::NotFound);
        }
        let ghost before = xml_document@.tree(root).children;
        let num_formats = Self::number_formats_element(self.number_formats());
        let _ = xml_document.append_tree_mut(&num_formats, Some(root));
        let fonts = Self::fonts_element(self.fonts());
        let _ = xml_document.append_tree_mut(&fonts, Some(root));
        let fills = Self::fills_element(self.fills());
        let _ = xml_document.append_tree_mut(&fills, Some(root));
        let borders = Self::borders_element(self.borders());
        let _ = xml_document.append_tree_mut(&borders, Some(root));
        let cell_xfs = Self::add_cell_style(self.cell_xfs(), true);
        let _ = xml_document.append_tree_mut(&cell_xfs, Some(root));
        let cell_style_xfs = Self::add_cell_style(self.cell_style_xfs(), false);
        let _ = xml_document.append_tree_mut(&cell_style_xfs, Some(root));
        assert(xml_document@.tree(root).children =~= before + style_nodes(self@));
        Ok(())
    }
}

/// The tables of a new workbook: the default font, the fill without
/// pattern and the fill of gray dots, the border without lines, and the
/// default cell format in both tables of cell formats.
pub open spec fn new_style_tables() -> StyleModel {
    StyleModel {
        number_formats: Seq::empty(),
        fonts: seq![FontStyle::default_model()],
        fills: seq![
            FillStyle::default_model(),
            FillModel {
                pattern_type: PatternTypeValues::Gray125,
                background_color: None,
                foreground_color: None,
            },
        ],
        borders: seq![BorderStyle::default_model()],
        cell_style_xfs: seq![Xf::default_model()],
        cell_xfs: seq![Xf::default_model()],
    }
}

/// The tree of the style sheet of a new workbook: the root with its
/// namespace and the six tables, in the order of the schema.
pub open spec fn new_style_sheet_node() -> Node {
    Node {
        tag: "styleSheet"@,
        attributes: seq![
            ("xmlns"@, "http://schemas.openxmlformats.org/spreadsheetml/2006/main"@),
        ],
        value: None,
        children: seq![
            num_fmts_node(new_style_tables().number_formats),
            fonts_node(new_style_tables().fonts),
            fills_node(new_style_tables().fills),
            borders_node(new_style_tables().borders),
            xfs_node(new_style_tables().cell_style_xfs, false),
            xfs_node(new_style_tables().cell_xfs, true),
        ],
    }
}

impl StylePart {
    /// The path of the style sheet's file: where the first relationship of
    /// the type of style sheets leads, or the path of a new style sheet, to
    /// which a relationship is then made.
    pub fn get_style_file_name(relations_part: &mut RelationsPart) -> (res: Result<
        String,
        OfficeError,
    >)
        requires
            old(relations_part).wf(),
        ensures
            final(relations_part).wf(),
            final(relations_part)@ == old(relations_part)@.with_target_by_type(
                style_content_spec().schemas_type@,
                style_content_spec(),
                None,
                None,
            ),
            paths_view(res) == old(relations_part)@.target_by_type(
                style_content_spec().schemas_type@,
                style_content_spec(),
                None,
                None,
            ),
    {
        let content = style_content();
        relations_part.get_relationship_target_by_type_mut(
            content.schemas_type,
            &content,
            None,
            None,
        )
    }

    /// Initialize xml content for this part from base template
    ///
    /// The style sheet of a new workbook. With it come the content type of
    /// style sheets, the extension of their files, and the way in which
    /// their content type is declared.
    pub fn initialize_content_xml() -> (res: (XmlDocument, Option<String>, String, String))
        ensures
            res.0.wf(),
            res.0@.parent_or_root(None) == Some(1usize),
            res.0@.tree(1) == new_style_sheet_node(),
            res.1 matches Some(content_type) && content_type@
                == style_content_spec().content_type@,
            res.2@ == "xml"@,
            res.3@ == "Override"@,
    {
        let content = style_content();
        let mut fonts: Vec<FontStyle> = Vec::new();
        fonts.push(FontStyle::default_value());
        let mut fills: Vec<FillStyle> = Vec::new();
        fills.push(FillStyle::default_value());
        let mut dots = FillStyle::default_value();
        dots.pattern_type = PatternTypeValues::Gray125;
        fills.push(dots);
        let mut borders: Vec<BorderStyle> = Vec::new();
        borders.push(BorderStyle::default_value());
        let mut cell_style_xfs: Vec<Xf> = Vec::new();
        cell_style_xfs.push(Xf::default_value());
        let mut cell_xfs: Vec<Xf> = Vec::new();
        cell_xfs.push(Xf::default_value());
        let number_formats: Vec<NumberFormat> = Vec::new();
        let mut root = XmlNode::new("styleSheet");
        root.push_attribute("xmlns", content.schemas_namespace.to_owned());
        root.push_child(Self::number_formats_element(&number_formats));
        root.push_child(Self::fonts_element(&fonts));
        root.push_child(Self::fills_element(&fills));
        root.push_child(Self::borders_element(&borders));
        root.push_child(Self::add_cell_style(&cell_style_xfs, false));
        root.push_child(Self::add_cell_style(&cell_xfs, true));
        proof {
            assert(formats_view(number_formats@) =~= new_style_tables().number_formats);
            assert(fonts_view(fonts@) =~= new_style_tables().fonts);
            assert(fills_view(fills@) =~= new_style_tables().fills);
            assert(borders_view(borders@) =~= new_style_tables().borders);
            assert(cell_style_xfs@ =~= new_style_tables().cell_style_xfs);
            assert(cell_xfs@ =~= new_style_tables().cell_xfs);
            assert(root@.attributes =~= new_style_sheet_node().attributes);
            assert(root@.children =~= new_style_sheet_node().children);
        }
        (
            XmlDocument::from_tree(&root),
            Some(content.content_type.to_owned()),
            content.extension.to_owned(),
            content.extension_type.to_owned(),
        )
    }

    /// Writes the tables into the style sheet as `save_content_to_tree_mut`
    /// does, and puts the children of the root in the order of the schema.
    /// A document without a root is refused and left as it was.
    pub fn close_document(&self, xml_document: &mut XmlDocument) -> (res: Result<(), OfficeError>)
        requires
            old(xml_document).wf(),
        ensures
            final(xml_document).wf(),
            match old(xml_document)@.parent_or_root(None) {
                Some(root) => res is Ok && final(xml_document)@.parent_or_root(None) == Some(root)
                    && final(xml_document)@.tree(root) == (Node {
                    children: ordered_nodes(
                        old(xml_document)@.tree(root).children + style_nodes(self@),
                        style_order_tags(),
                    ),
                    ..old(xml_document)@.tree(root)
                }),
                None => res == Err::<(), OfficeError>(OfficeError::NotFound) && final(xml_document)@ == old(xml_document)@,
            },
    {
        let root = match xml_document.get_root_id() {
            Some(r) => r,
            None => {
                return Err(OfficeError::NotFound);
            },
        };
        if xml_document.get_element(root).is_none() {
            return Err(OfficeError::NotFound);
        }
        let _ = self.save_content_to_tree_mut(xml_document);
        let order = style_order();
        let ghost mid = xml_document@;
        let _ = xml_document.reorder_children(root, order.as_slice());
        proof {
            mid.lemma_tree_after_reorder(root, style_order_tags());
        }
        Ok(())
    }
}

} // verus!
