//! Reading the style tables from XML: each table is the last child of that
//! name of the style sheet's root, and each of its children is one entry,
//! in its place.

use vstd::prelude::*;
use crate::error::OfficeError;
use crate::style::{StylePart, borders_view, fills_view, fonts_view, formats_view};
use crate::style_models::{
    BorderModel, BorderSetting, BorderSideModel, BorderStyle, BorderStyleValues, CellXfs,
    ColorModel, ColorSetting, ColorSettingTypeValues, FillModel, FillStyle, FontModel,
    FontSchemeValues, FontStyle, HorizontalAlignmentValues, NumberFormat, NumberFormatModel,
    PatternTypeValues, VerticalAlignmentValues, border_style_of_text, font_scheme_of_text,
    horizontal_alignment_of_text, opt_color, pattern_type_of_text, vertical_alignment_of_text,
};
use crate::style_tables::{MAX_STYLE_ENTRIES, StyleModel, xf_is_plain};
use crate::text::{decimal_value, parse_decimal, str_eq};
use crate::xml_document::{DocumentModel, XmlDocument};
use crate::xml_node::{Node, XmlNode, last_named};
use crate::xml_tree::attribute_in;

verus! {

/// Each of `nodes` read by `read`, in their order; nothing where one of
/// them cannot be read.
pub open spec fn read_all<T>(nodes: Seq<Node>, read: spec_fn(Node) -> Option<T>) -> Option<Seq<T>>
    decreases nodes.len(),
{
    if nodes.len() == 0 {
        Some(Seq::empty())
    } else {
        match (read_all(nodes.drop_last(), read), read(nodes.last())) {
            (Some(front), Some(last)) => Some(front.push(last)),
            _ => None,
        }
    }
}

/// What `init` becomes when each of `nodes` in turn is taken in by `step`;
/// nothing where one of them cannot be taken in.
pub open spec fn fold_all<T>(nodes: Seq<Node>, init: T, step: spec_fn(T, Node) -> Option<T>) -> Option<
    T,
>
    decreases nodes.len(),
{
    if nodes.len() == 0 {
        Some(init)
    } else {
        match fold_all(nodes.drop_last(), init, step) {
            Some(acc) => step(acc, nodes.last()),
            None => None,
        }
    }
}

/// The number that a decimal numeral of at most 32 bits stands for.
pub open spec fn number_of_text(text: Seq<char>) -> Option<u32> {
    match decimal_value(text) {
        Some(v) => if v <= u32::MAX {
            Some(v as u32)
        } else {
            None
        },
        None => None,
    }
}

/// The switch that a text stands for: set for `1` and `true`.
pub open spec fn switch_of_text(text: Seq<char>) -> u8 {
    if text == "1"@ || text == "true"@ {
        1
    } else {
        0
    }
}

/// The number in the attribute `name`: `fallback` where there is no such
/// attribute, nothing where it does not hold a number.
pub open spec fn number_attribute(
    attributes: Seq<(Seq<char>, Seq<char>)>,
    name: Seq<char>,
    fallback: u32,
) -> Option<u32> {
    match attribute_in(attributes, name) {
        Some(text) => number_of_text(text),
        None => Some(fallback),
    }
}

/// The switch in the attribute `name`; not set where there is no such
/// attribute.
pub open spec fn switch_attribute_of(attributes: Seq<(Seq<char>, Seq<char>)>, name: Seq<char>) -> u8 {
    match attribute_in(attributes, name) {
        Some(text) => switch_of_text(text),
        None => 0,
    }
}

/// The color that the attributes of an element give: by theme, else as
/// red, green and blue, else by index; none where they give none.
pub open spec fn read_color(attributes: Seq<(Seq<char>, Seq<char>)>) -> Option<ColorModel> {
    if attribute_in(attributes, "theme"@) is Some {
        Some(
            ColorModel {
                kind: ColorSettingTypeValues::Theme,
                value: attribute_in(attributes, "theme"@)->0,
            },
        )
    } else if attribute_in(attributes, "rgb"@) is Some {
        Some(
            ColorModel {
                kind: ColorSettingTypeValues::Rgb,
                value: attribute_in(attributes, "rgb"@)->0,
            },
        )
    } else if attribute_in(attributes, "indexed"@) is Some {
        Some(
            ColorModel {
                kind: ColorSettingTypeValues::Indexed,
                value: attribute_in(attributes, "indexed"@)->0,
            },
        )
    } else {
        None
    }
}

/// The number format that an element stands for. It must give its id as a
/// number, and its code.
pub open spec fn read_num_fmt(node: Node) -> Option<NumberFormatModel> {
    match (node.attribute("numFmtId"@), node.attribute("formatCode"@)) {
        (Some(id), Some(code)) => match number_of_text(id) {
            Some(format_id) => Some(NumberFormatModel { format_id, format_code: code }),
            None => None,
        },
        _ => None,
    }
}

/// The font `font` after one child of its element has been read. A child
/// of a name that a font does not have is refused.
pub open spec fn font_step(font: FontModel, child: Node) -> Option<FontModel> {
    if child.tag == "b"@ {
        Some(FontModel { is_bold: true, ..font })
    } else if child.tag == "i"@ {
        Some(FontModel { is_italic: true, ..font })
    } else if child.tag == "u"@ {
        if child.attribute("val"@) == Some("double"@) {
            Some(FontModel { is_double_underline: true, ..font })
        } else {
            Some(FontModel { is_underline: true, ..font })
        }
    } else if child.tag == "sz"@ {
        match number_attribute(child.attributes, "val"@, font.size) {
            Some(size) => Some(FontModel { size, ..font }),
            None => None,
        }
    } else if child.tag == "color"@ {
        match read_color(child.attributes) {
            Some(color) => Some(FontModel { color, ..font }),
            None => Some(font),
        }
    } else if child.tag == "name"@ {
        match child.attribute("val"@) {
            Some(name) => Some(FontModel { name, ..font }),
            None => Some(font),
        }
    } else if child.tag == "family"@ {
        match number_attribute(child.attributes, "val"@, font.family) {
            Some(family) => Some(FontModel { family, ..font }),
            None => None,
        }
    } else if child.tag == "scheme"@ {
        match child.attribute("val"@) {
            Some(scheme) => Some(FontModel { font_scheme: font_scheme_of_text(scheme), ..font }),
            None => Some(font),
        }
    } else {
        None
    }
}

/// The font that an element stands for: the default font with what the
/// element's children say of it.
pub open spec fn read_font(node: Node) -> Option<FontModel> {
    fold_all(node.children, FontStyle::default_model(), |f: FontModel, c: Node| font_step(f, c))
}

/// The fill `fill` after one child of its pattern has been read. A child
/// without attributes says nothing; one of a name that a pattern does not
/// have is refused.
pub open spec fn fill_step(fill: FillModel, child: Node) -> Option<FillModel> {
    if child.attributes.len() == 0 {
        Some(fill)
    } else if child.tag == "fgColor"@ {
        match read_color(child.attributes) {
            Some(color) => Some(FillModel { foreground_color: Some(color), ..fill }),
            None => Some(fill),
        }
    } else if child.tag == "bgColor"@ {
        match read_color(child.attributes) {
            Some(color) => Some(FillModel { background_color: Some(color), ..fill }),
            None => Some(fill),
        }
    } else {
        None
    }
}

/// The fill that an element stands for: what its first child says of the
/// pattern and the colors, where that child names a pattern.
pub open spec fn read_fill(node: Node) -> Option<FillModel> {
    if node.children.len() == 0 {
        Some(FillStyle::default_model())
    } else {
        let pattern = node.children[0];
        match pattern.attribute("patternType"@) {
            Some(kind) => fold_all(
                pattern.children,
                FillModel { pattern_type: pattern_type_of_text(kind), ..FillStyle::default_model() },
                |f: FillModel, c: Node| fill_step(f, c),
            ),
            None => Some(FillStyle::default_model()),
        }
    }
}

/// The side of a border that an element stands for: the line that its
/// attribute `style` gives, none where it has no such attribute, and the
/// color that its first child gives.
pub open spec fn read_side(node: Node) -> BorderSideModel {
    BorderSideModel {
        style: match node.attribute("style"@) {
            Some(style) => border_style_of_text(style),
            None => BorderStyleValues::Unset,
        },
        border_color: if node.children.len() == 0 {
            None
        } else {
            read_color(node.children[0].attributes)
        },
    }
}

/// The border `border` after one child of its element has been read. A
/// child of a name that a border does not have is refused.
pub open spec fn border_step(border: BorderModel, child: Node) -> Option<BorderModel> {
    if child.tag == "left"@ {
        Some(BorderModel { left: read_side(child), ..border })
    } else if child.tag == "right"@ {
        Some(BorderModel { right: read_side(child), ..border })
    } else if child.tag == "top"@ {
        Some(BorderModel { top: read_side(child), ..border })
    } else if child.tag == "bottom"@ {
        Some(BorderModel { bottom: read_side(child), ..border })
    } else if child.tag == "diagonal"@ {
        Some(BorderModel { diagonal: read_side(child), ..border })
    } else {
        None
    }
}

/// The border that an element stands for.
pub open spec fn read_border(node: Node) -> Option<BorderModel> {
    fold_all(
        node.children,
        BorderStyle::default_model(),
        |b: BorderModel, c: Node| border_step(b, c),
    )
}

/// The attributes of the alignment of a cell format's element: those of
/// its first child, none where it has no child.
pub open spec fn alignment_of(node: Node) -> Seq<(Seq<char>, Seq<char>)> {
    if node.children.len() == 0 {
        Seq::empty()
    } else {
        node.children[0].attributes
    }
}

/// The cell format that an element stands for. A place that is not given
/// is 0; one that is given must be a number. The place of the named style
/// is read only where `with_format_id` holds.
pub open spec fn read_xf(node: Node, with_format_id: bool) -> Option<CellXfs> {
    let a = node.attributes;
    let alignment = alignment_of(node);
    match (
        number_attribute(a, "numFmtId"@, 0),
        number_attribute(a, "fontId"@, 0),
        number_attribute(a, "fillId"@, 0),
        number_attribute(a, "borderId"@, 0),
        number_attribute(a, "xfId"@, 0),
    ) {
        (Some(number_format_id), Some(font_id), Some(fill_id), Some(border_id), Some(format_id)) => Some(
            CellXfs {
                format_id: if with_format_id {
                    format_id
                } else {
                    0
                },
                number_format_id,
                font_id,
                fill_id,
                border_id,
                apply_font: switch_attribute_of(a, "applyFont"@),
                apply_alignment: switch_attribute_of(a, "applyAlignment"@),
                apply_fill: switch_attribute_of(a, "applyFill"@),
                apply_border: switch_attribute_of(a, "applyBorder"@),
                apply_number_format: switch_attribute_of(a, "applyNumberFormat"@),
                apply_protection: switch_attribute_of(a, "applyProtection"@),
                is_wrap_text: switch_attribute_of(alignment, "wrapText"@),
                vertical_alignment: match attribute_in(alignment, "vertical"@) {
                    Some(text) => vertical_alignment_of_text(text),
                    None => VerticalAlignmentValues::Unset,
                },
                horizontal_alignment: match attribute_in(alignment, "horizontal"@) {
                    Some(text) => horizontal_alignment_of_text(text),
                    None => HorizontalAlignmentValues::Unset,
                },
            },
        ),
        _ => None,
    }
}

/// The entries of the table named `tag` among `nodes`: the children of the
/// last node of that name, each read by `read`; no entries where there is
/// no such node.
pub open spec fn read_table<T>(nodes: Seq<Node>, tag: Seq<char>, read: spec_fn(Node) -> Option<T>) -> Option<
    Seq<T>,
> {
    match last_named(nodes, tag) {
        Some(table) => read_all(table.children, read),
        None => Some(Seq::empty()),
    }
}

/// The tables that the children of a style sheet's root stand for, before
/// it is known whether they keep the tables' invariant.
pub open spec fn read_tables(nodes: Seq<Node>) -> Option<StyleModel> {
    match (
        read_table(nodes, "numFmts"@, |n: Node| read_num_fmt(n)),
        read_table(nodes, "fonts"@, |n: Node| read_font(n)),
        read_table(nodes, "fills"@, |n: Node| read_fill(n)),
        read_table(nodes, "borders"@, |n: Node| read_border(n)),
        read_table(nodes, "cellStyleXfs"@, |n: Node| read_xf(n, false)),
        read_table(nodes, "cellXfs"@, |n: Node| read_xf(n, true)),
    ) {
        (
            Some(number_formats),
            Some(fonts),
            Some(fills),
            Some(borders),
            Some(cell_style_xfs),
            Some(cell_xfs),
        ) => Some(
            StyleModel { number_formats, fonts, fills, borders, cell_style_xfs, cell_xfs },
        ),
        _ => None,
    }
}

/// The tables that the children of a style sheet's root stand for: what is
/// read of them, where that keeps the tables' invariant.
pub open spec fn read_style(nodes: Seq<Node>) -> Option<StyleModel> {
    match read_tables(nodes) {
        Some(tables) => if tables.wf() {
            Some(tables)
        } else {
            None
        },
        None => None,
    }
}

/// The document without the subtrees of the six style tables.
pub open spec fn without_style_tables(document: DocumentModel) -> DocumentModel {
    let d1 = document.without_subtrees(document.tagged("numFmts"@));
    let d2 = d1.without_subtrees(d1.tagged("fonts"@));
    let d3 = d2.without_subtrees(d2.tagged("fills"@));
    let d4 = d3.without_subtrees(d3.tagged("borders"@));
    let d5 = d4.without_subtrees(d4.tagged("cellStyleXfs"@));
    d5.without_subtrees(d5.tagged("cellXfs"@))
}

/// The number that a text stands for.
fn number_from(text: &str) -> (res: Option<u32>)
    ensures
        res == number_of_text(text@),
{
    match parse_decimal(text) {
        Some(v) => if v <= 0xffff_ffff {
            Some(v as u32)
        } else {
            None
        },
        None => None,
    }
}

/// The switch that a text stands for.
fn switch_from(text: &str) -> (switch: u8)
    ensures
        switch == switch_of_text(text@),
{
    if str_eq(text, "1") || str_eq(text, "true") {
        1
    } else {
        0
    }
}

/// The number in the attribute `name` of `node`.
fn number_attribute_from(node: &XmlNode, name: &str, fallback: u32) -> (res: Option<u32>)
    ensures
        res == number_attribute(node@.attributes, name@, fallback),
{
    match node.attribute_value(name) {
        Some(text) => number_from(text.as_str()),
        None => Some(fallback),
    }
}

/// The switch in the attribute `name` of `node`.
fn switch_attribute_from(node: &XmlNode, name: &str) -> (switch: u8)
    ensures
        switch == switch_attribute_of(node@.attributes, name@),
{
    match node.attribute_value(name) {
        Some(text) => switch_from(text.as_str()),
        None => 0,
    }
}

/// The color that the attributes of `node` give.
fn color_from(node: &XmlNode) -> (color: Option<ColorSetting>)
    ensures
        opt_color(color) == read_color(node@.attributes),
{
    if let Some(theme) = node.attribute_value("theme") {
        Some(
            ColorSetting {
                color_setting_type: ColorSettingTypeValues::Theme,
                value: theme.clone(),
            },
        )
    } else if let Some(rgb) = node.attribute_value("rgb") {
        Some(ColorSetting { color_setting_type: ColorSettingTypeValues::Rgb, value: rgb.clone() })
    } else if let Some(indexed) = node.attribute_value("indexed") {
        Some(
            ColorSetting {
                color_setting_type: ColorSettingTypeValues::Indexed,
                value: indexed.clone(),
            },
        )
    } else {
        None
    }
}

/// The number format that `node` stands for.
fn num_fmt_from(node: &XmlNode) -> (res: Result<NumberFormat, OfficeError>)
    ensures
        match read_num_fmt(node@) {
            Some(format) => res matches Ok(f) && f@ == format,
            None => res matches Err(e) && e == OfficeError::Schema,
        },
{
    let id = match node.attribute_value("numFmtId") {
        Some(id) => id,
        None => {
            return Err(OfficeError::Schema);
        },
    };
    let code = match node.attribute_value("formatCode") {
        Some(code) => code,
        None => {
            return Err(OfficeError::Schema);
        },
    };
    match number_from(id.as_str()) {
        Some(format_id) => Ok(NumberFormat { format_id, format_code: code.clone() }),
        None => Err(OfficeError::Schema),
    }
}

/// Takes one child of a font's element into `font`.
fn font_take(font: FontStyle, child: &XmlNode) -> (res: Result<FontStyle, OfficeError>)
    ensures
        match font_step(font@, child@) {
            Some(next) => res matches Ok(f) && f@ == next,
            None => res matches Err(e) && e == OfficeError::Schema,
        },
{
    let mut font = font;
    if child.is_named("b") {
        font.is_bold = true;
    } else if child.is_named("i") {
        font.is_italic = true;
    } else if child.is_named("u") {
        let double = match child.attribute_value("val") {
            Some(v) => str_eq(v.as_str(), "double"),
            None => false,
        };
        if double {
            font.is_double_underline = true;
        } else {
            font.is_underline = true;
        }
    } else if child.is_named("sz") {
        match number_attribute_from(child, "val", font.size) {
            Some(size) => {
                font.size = size;
            },
            None => {
                return Err(OfficeError::Schema);
            },
        }
    } else if child.is_named("color") {
        match color_from(child) {
            Some(color) => {
                font.color = color;
            },
            None => {},
        }
    } else if child.is_named("name") {
        match child.attribute_value("val") {
            Some(name) => {
                font.name = name.clone();
            },
            None => {},
        }
    } else if child.is_named("family") {
        match number_attribute_from(child, "val", font.family) {
            Some(family) => {
                font.family = family;
            },
            None => {
                return Err(OfficeError::Schema);
            },
        }
    } else if child.is_named("scheme") {
        match child.attribute_value("val") {
            Some(scheme) => {
                font.font_scheme = FontSchemeValues::get_enum(scheme.as_str());
            },
            None => {},
        }
    } else {
        return Err(OfficeError::Schema);
    }
    Ok(font)
}

/// The font that `node` stands for.
fn font_from_node(node: &XmlNode) -> (res: Result<FontStyle, OfficeError>)
    ensures
        match read_font(node@) {
            Some(font) => res matches Ok(f) && f@ == font,
            None => res matches Err(e) && e == OfficeError::Schema,
        },
{
    let ghost all = node@.children;
    let ghost step = |f: FontModel, c: Node| font_step(f, c);
    let mut font = FontStyle::default_value();
    let mut i: usize = 0;
    while i < node.children.len()
        invariant
            i <= node.children.len(),
            all == node@.children,
            step == (|f: FontModel, c: Node| font_step(f, c)),
            fold_all(all.take(i as int), FontStyle::default_model(), step) == Some(font@),
        decreases node.children.len() - i,
    {
        proof {
            let t = all.take(i + 1);
            assert(t.drop_last() == all.take(i as int));
            assert(t.last() == node.children[i as int]@);
            assert(all.take(all.len() as int) == all);
            if fold_all(t, FontStyle::default_model(), step) is None {
                lemma_fold_none(all, (i + 1) as int, FontStyle::default_model(), step);
            }
        }
        font = match font_take(font, &node.children[i]) {
            Ok(f) => f,
            Err(e) => {
                return Err(e);
            },
        };
        i += 1;
    }
    assert(all.take(i as int) == all);
    Ok(font)
}

/// Where a front part of `nodes` cannot be taken in, `nodes` cannot.
pub proof fn lemma_fold_none<T>(
    nodes: Seq<Node>,
    i: int,
    init: T,
    step: spec_fn(T, Node) -> Option<T>,
)
    requires
        0 <= i <= nodes.len(),
        fold_all(nodes.take(i), init, step) is None,
    ensures
        fold_all(nodes, init, step) is None,
    decreases nodes.len() - i,
{
    if i < nodes.len() {
        let t = nodes.take(i + 1);
        assert(t.drop_last() == nodes.take(i));
        lemma_fold_none(nodes, i + 1, init, step);
    } else {
        assert(nodes.take(i) == nodes);
    }
}

/// Where a front part of `nodes` cannot be read, `nodes` cannot.
pub proof fn lemma_read_none<T>(nodes: Seq<Node>, i: int, read: spec_fn(Node) -> Option<T>)
    requires
        0 <= i <= nodes.len(),
        read_all(nodes.take(i), read) is None,
    ensures
        read_all(nodes, read) is None,
    decreases nodes.len() - i,
{
    if i < nodes.len() {
        let t = nodes.take(i + 1);
        assert(t.drop_last() == nodes.take(i));
        lemma_read_none(nodes, i + 1, read);
    } else {
        assert(nodes.take(i) == nodes);
    }
}

/// Takes one child of a pattern's element into `fill`.
fn fill_take(fill: FillStyle, child: &XmlNode) -> (res: Result<FillStyle, OfficeError>)
    ensures
        match fill_step(fill@, child@) {
            Some(next) => res matches Ok(f) && f@ == next,
            None => res matches Err(e) && e == OfficeError::Schema,
        },
{
    let mut fill = fill;
    if child.attributes.len() == 0 {
        assert(child@.attributes.len() == 0);
    } else if child.is_named("fgColor") {
        assert(child@.attributes.len() != 0);
        match color_from(child) {
            Some(color) => {
                fill.foreground_color = Some(color);
            },
            None => {},
        }
    } else if child.is_named("bgColor") {
        assert(child@.attributes.len() != 0);
        match color_from(child) {
            Some(color) => {
                fill.background_color = Some(color);
            },
            None => {},
        }
    } else {
        assert(child@.attributes.len() != 0);
        return Err(OfficeError::Schema);
    }
    Ok(fill)
}

/// The fill that `node` stands for.
fn fill_from_node(node: &XmlNode) -> (res: Result<FillStyle, OfficeError>)
    ensures
        match read_fill(node@) {
            Some(fill) => res matches Ok(f) && f@ == fill,
            None => res matches Err(e) && e == OfficeError::Schema,
        },
{
    if node.children.len() == 0 {
        return Ok(FillStyle::default_value());
    }
    let pattern = &node.children[0];
    assert(pattern@ == node@.children[0]);
    let kind = match pattern.attribute_value("patternType") {
        Some(kind) => kind,
        None => {
            return Ok(FillStyle::default_value());
        },
    };
    let mut fill = FillStyle::default_value();
    fill.pattern_type = PatternTypeValues::get_enum(kind.as_str());
    let ghost all = pattern@.children;
    let ghost step = |f: FillModel, c: Node| fill_step(f, c);
    let ghost init = fill@;
    let mut i: usize = 0;
    while i < pattern.children.len()
        invariant
            i <= pattern.children.len(),
            all == pattern@.children,
            step == (|f: FillModel, c: Node| fill_step(f, c)),
            read_fill(node@) == fold_all(all, init, step),
            fold_all(all.take(i as int), init, step) == Some(fill@),
        decreases pattern.children.len() - i,
    {
        proof {
            let t = all.take(i + 1);
            assert(t.drop_last() == all.take(i as int));
            assert(t.last() == pattern.children[i as int]@);
            if fold_all(t, init, step) is None {
                lemma_fold_none(all, (i + 1) as int, init, step);
            }
        }
        fill = match fill_take(fill, &pattern.children[i]) {
            Ok(f) => f,
            Err(e) => {
                return Err(e);
            },
        };
        i += 1;
    }
    assert(all.take(i as int) == all);
    Ok(fill)
}

impl StylePart {
    /// The side of a border that `current_element` stands for.
    pub(crate) fn deserialize_border_setting(current_element: &XmlNode) -> (border: BorderSetting)
        ensures
            border@ == read_side(current_element@),
    {
        let style = match current_element.attribute_value("style") {
            Some(style) => BorderStyleValues::get_enum(style.as_str()),
            None => BorderStyleValues::Unset,
        };
        let border_color = if current_element.children.len() == 0 {
            None
        } else {
            assert(current_element.children[0]@ == current_element@.children[0]);
            color_from(&current_element.children[0])
        };
        BorderSetting { style, border_color }
    }

    /// The cell formats that the children of `style_xfs` stand for, in
    /// their order.
    pub(crate) fn deserialize_cell_style(style_xfs: &XmlNode, with_format_id: bool) -> (res: Result<
        Vec<CellXfs>,
        OfficeError,
    >)
        ensures
            match read_all(style_xfs@.children, |n: Node| read_xf(n, with_format_id)) {
                Some(xfs) => res matches Ok(records) && records@ == xfs,
                None => res matches Err(e) && e == OfficeError::Schema,
            },
    {
        let ghost all = style_xfs@.children;
        let ghost read = |n: Node| read_xf(n, with_format_id);
        let mut style_records: Vec<CellXfs> = Vec::new();
        let mut i: usize = 0;
        while i < style_xfs.children.len()
            invariant
                i <= style_xfs.children.len(),
                all == style_xfs@.children,
                read == (|n: Node| read_xf(n, with_format_id)),
                read_all(all.take(i as int), read) == Some(style_records@),
            decreases style_xfs.children.len() - i,
        {
            proof {
                let t = all.take(i + 1);
                assert(t.drop_last() == all.take(i as int));
                assert(t.last() == style_xfs.children[i as int]@);
                if read_all(t, read) is None {
                    lemma_read_none(all, (i + 1) as int, read);
                }
            }
            match xf_from_node(&style_xfs.children[i], with_format_id) {
                Some(xf) => {
                    style_records.push(xf);
                },
                None => {
                    return Err(OfficeError::Schema);
                },
            }
            i += 1;
        }
        assert(all.take(i as int) == all);
        Ok(style_records)
    }
}

/// The cell format that `node` stands for.
fn xf_from_node(node: &XmlNode, with_format_id: bool) -> (res: Option<CellXfs>)
    ensures
        res == read_xf(node@, with_format_id),
{
    let number_format_id = number_attribute_from(node, "numFmtId", 0);
    let font_id = number_attribute_from(node, "fontId", 0);
    let fill_id = number_attribute_from(node, "fillId", 0);
    let border_id = number_attribute_from(node, "borderId", 0);
    let format_id = number_attribute_from(node, "xfId", 0);
    let mut xf = match (number_format_id, font_id, fill_id, border_id, format_id) {
        (Some(n), Some(f), Some(l), Some(b), Some(x)) => CellXfs {
            format_id: if with_format_id {
                x
            } else {
                0
            },
            number_format_id: n,
            font_id: f,
            fill_id: l,
            border_id: b,
            apply_font: switch_attribute_from(node, "applyFont"),
            apply_alignment: switch_attribute_from(node, "applyAlignment"),
            apply_fill: switch_attribute_from(node, "applyFill"),
            apply_border: switch_attribute_from(node, "applyBorder"),
            apply_number_format: switch_attribute_from(node, "applyNumberFormat"),
            apply_protection: switch_attribute_from(node, "applyProtection"),
            is_wrap_text: 0,
            vertical_alignment: VerticalAlignmentValues::Unset,
            horizontal_alignment: HorizontalAlignmentValues::Unset,
        },
        _ => {
            return None;
        },
    };
    if node.children.len() > 0 {
        let alignment = &node.children[0];
        assert(alignment@ == node@.children[0]);
        xf.is_wrap_text = switch_attribute_from(alignment, "wrapText");
        xf.vertical_alignment = match alignment.attribute_value("vertical") {
            Some(text) => VerticalAlignmentValues::get_enum(text.as_str()),
            None => VerticalAlignmentValues::Unset,
        };
        xf.horizontal_alignment = match alignment.attribute_value("horizontal") {
            Some(text) => HorizontalAlignmentValues::get_enum(text.as_str()),
            None => HorizontalAlignmentValues::Unset,
        };
    } else {
        assert(alignment_of(node@) =~= Seq::empty());
    }
    Some(xf)
}

/// Takes one child of a border's element into `border`.
fn border_take(border: BorderStyle, child: &XmlNode) -> (res: Result<BorderStyle, OfficeError>)
    ensures
        match border_step(border@, child@) {
            Some(next) => res matches Ok(b) && b@ == next,
            None => res matches Err(e) && e == OfficeError::Schema,
        },
{
    let mut border = border;
    if child.is_named("left") {
        border.left = StylePart::deserialize_border_setting(child);
    } else if child.is_named("right") {
        border.right = StylePart::deserialize_border_setting(child);
    } else if child.is_named("top") {
        border.top = StylePart::deserialize_border_setting(child);
    } else if child.is_named("bottom") {
        border.bottom = StylePart::deserialize_border_setting(child);
    } else if child.is_named("diagonal") {
        border.diagonal = StylePart::deserialize_border_setting(child);
    } else {
        return Err(OfficeError::Schema);
    }
    Ok(border)
}

/// The border that `node` stands for.
fn border_from_node(node: &XmlNode) -> (res: Result<BorderStyle, OfficeError>)
    ensures
        match read_border(node@) {
            Some(border) => res matches Ok(b) && b@ == border,
            None => res matches Err(e) && e == OfficeError::Schema,
        },
{
    let ghost all = node@.children;
    let ghost step = |b: BorderModel, c: Node| border_step(b, c);
    let mut border = BorderStyle::default_value();
    let mut i: usize = 0;
    while i < node.children.len()
        invariant
            i <= node.children.len(),
            all == node@.children,
            step == (|b: BorderModel, c: Node| border_step(b, c)),
            fold_all(all.take(i as int), BorderStyle::default_model(), step) == Some(border@),
        decreases node.children.len() - i,
    {
        proof {
            let t = all.take(i + 1);
            assert(t.drop_last() == all.take(i as int));
            assert(t.last() == node.children[i as int]@);
            if fold_all(t, BorderStyle::default_model(), step) is None {
                lemma_fold_none(all, (i + 1) as int, BorderStyle::default_model(), step);
            }
        }
        border = match border_take(border, &node.children[i]) {
            Ok(b) => b,
            Err(e) => {
                return Err(e);
            },
        };
        i += 1;
    }
    assert(all.take(i as int) == all);
    Ok(border)
}

/// The number formats that the children of `table` stand for.
fn formats_from_table(table: &XmlNode) -> (res: Result<Vec<NumberFormat>, OfficeError>)
    ensures
        match read_all(table@.children, |n: Node| read_num_fmt(n)) {
            Some(formats) => res matches Ok(records) && formats_view(records@) == formats,
            None => res matches Err(e) && e == OfficeError::Schema,
        },
{
    let ghost all = table@.children;
    let ghost read = |n: Node| read_num_fmt(n);
    let mut records: Vec<NumberFormat> = Vec::new();
    let mut i: usize = 0;
    assert(formats_view(records@) =~= Seq::<NumberFormatModel>::empty());
    while i < table.children.len()
        invariant
            i <= table.children.len(),
            all == table@.children,
            read == (|n: Node| read_num_fmt(n)),
            read_all(all.take(i as int), read) == Some(formats_view(records@)),
        decreases table.children.len() - i,
    {
        let ghost front = formats_view(records@);
        proof {
            let t = all.take(i + 1);
            assert(t.drop_last() == all.take(i as int));
            assert(t.last() == table.children[i as int]@);
            if read_all(t, read) is None {
                lemma_read_none(all, (i + 1) as int, read);
            }
        }
        match num_fmt_from(&table.children[i]) {
            Ok(record) => {
                records.push(record);
                assert(formats_view(records@) =~= front.push(record@));
            },
            Err(e) => {
                return Err(e);
            },
        }
        i += 1;
    }
    assert(all.take(i as int) == all);
    Ok(records)
}

/// The fonts that the children of `table` stand for.
fn fonts_from_table(table: &XmlNode) -> (res: Result<Vec<FontStyle>, OfficeError>)
    ensures
        match read_all(table@.children, |n: Node| read_font(n)) {
            Some(fonts) => res matches Ok(records) && fonts_view(records@) == fonts,
            None => res matches Err(e) && e == OfficeError::Schema,
        },
{
    let ghost all = table@.children;
    let ghost read = |n: Node| read_font(n);
    let mut records: Vec<FontStyle> = Vec::new();
    let mut i: usize = 0;
    assert(fonts_view(records@) =~= Seq::<FontModel>::empty());
    while i < table.children.len()
        invariant
            i <= table.children.len(),
            all == table@.children,
            read == (|n: Node| read_font(n)),
            read_all(all.take(i as int), read) == Some(fonts_view(records@)),
        decreases table.children.len() - i,
    {
        let ghost front = fonts_view(records@);
        proof {
            let t = all.take(i + 1);
            assert(t.drop_last() == all.take(i as int));
            assert(t.last() == table.children[i as int]@);
            if read_all(t, read) is None {
                lemma_read_none(all, (i + 1) as int, read);
            }
        }
        match font_from_node(&table.children[i]) {
            Ok(record) => {
                records.push(record);
                assert(fonts_view(records@) =~= front.push(record@));
            },
            Err(e) => {
                return Err(e);
            },
        }
        i += 1;
    }
    assert(all.take(i as int) == all);
    Ok(records)
}

/// The fills that the children of `table` stand for.
fn fills_from_table(table: &XmlNode) -> (res: Result<Vec<FillStyle>, OfficeError>)
    ensures
        match read_all(table@.children, |n: Node| read_fill(n)) {
            Some(fills) => res matches Ok(records) && fills_view(records@) == fills,
            None => res matches Err(e) && e == OfficeError::Schema,
        },
{
    let ghost all = table@.children;
    let ghost read = |n: Node| read_fill(n);
    let mut records: Vec<FillStyle> = Vec::new();
    let mut i: usize = 0;
    assert(fills_view(records@) =~= Seq::<FillModel>::empty());
    while i < table.children.len()
        invariant
            i <= table.children.len(),
            all == table@.children,
            read == (|n: Node| read_fill(n)),
            read_all(all.take(i as int), read) == Some(fills_view(records@)),
        decreases table.children.len() - i,
    {
        let ghost front = fills_view(records@);
        proof {
            let t = all.take(i + 1);
            assert(t.drop_last() == all.take(i as int));
            assert(t.last() == table.children[i as int]@);
            if read_all(t, read) is None {
                lemma_read_none(all, (i + 1) as int, read);
            }
        }
        match fill_from_node(&table.children[i]) {
            Ok(record) => {
                records.push(record);
                assert(fills_view(records@) =~= front.push(record@));
            },
            Err(e) => {
                return Err(e);
            },
        }
        i += 1;
    }
    assert(all.take(i as int) == all);
    Ok(records)
}

/// The borders that the children of `table` stand for.
fn borders_from_table(table: &XmlNode) -> (res: Result<Vec<BorderStyle>, OfficeError>)
    ensures
        match read_all(table@.children, |n: Node| read_border(n)) {
            Some(borders) => res matches Ok(records) && borders_view(records@) == borders,
            None => res matches Err(e) && e == OfficeError::Schema,
        },
{
    let ghost all = table@.children;
    let ghost read = |n: Node| read_border(n);
    let mut records: Vec<BorderStyle> = Vec::new();
    let mut i: usize = 0;
    assert(borders_view(records@) =~= Seq::<BorderModel>::empty());
    while i < table.children.len()
        invariant
            i <= table.children.len(),
            all == table@.children,
            read == (|n: Node| read_border(n)),
            read_all(all.take(i as int), read) == Some(borders_view(records@)),
        decreases table.children.len() - i,
    {
        let ghost front = borders_view(records@);
        proof {
            let t = all.take(i + 1);
            assert(t.drop_last() == all.take(i as int));
            assert(t.last() == table.children[i as int]@);
            if read_all(t, read) is None {
                lemma_read_none(all, (i + 1) as int, read);
            }
        }
        match border_from_node(&table.children[i]) {
            Ok(record) => {
                records.push(record);
                assert(borders_view(records@) =~= front.push(record@));
            },
            Err(e) => {
                return Err(e);
            },
        }
        i += 1;
    }
    assert(all.take(i as int) == all);
    Ok(records)
}

/// What the tables' invariant asks of one cell format: the places of its
/// font, its fill, its border and its named style are in their tables,
/// its switches are 0 or 1, and in the table of named styles it rests on
/// no other style.
pub open spec fn xf_ok(tables: StyleModel, xf: CellXfs, of_cells: bool) -> bool {
    &&& tables.xf_in_range(xf)
    &&& xf_is_plain(xf)
    &&& if of_cells {
        tables.style_in_range(xf)
    } else {
        xf.format_id == 0
    }
}

/// The tables that six lists of entries stand for.
pub open spec fn tables_of(
    number_formats: Seq<NumberFormat>,
    fonts: Seq<FontStyle>,
    fills: Seq<FillStyle>,
    borders: Seq<BorderStyle>,
    cell_style_xfs: Seq<CellXfs>,
    cell_xfs: Seq<CellXfs>,
) -> StyleModel {
    StyleModel {
        number_formats: formats_view(number_formats),
        fonts: fonts_view(fonts),
        fills: fills_view(fills),
        borders: borders_view(borders),
        cell_style_xfs,
        cell_xfs,
    }
}

/// Whether every cell format of `table` is as the invariant asks.
fn xfs_valid(
    table: &Vec<CellXfs>,
    of_cells: bool,
    formats: usize,
    fonts: usize,
    fills: usize,
    borders: usize,
    styles: usize,
    Ghost(tables): Ghost<StyleModel>,
) -> (valid: bool)
    requires
        tables.number_formats.len() == formats,
        tables.fonts.len() == fonts,
        tables.fills.len() == fills,
        tables.borders.len() == borders,
        tables.cell_style_xfs.len() == styles,
    ensures
        valid == forall|i: int| 0 <= i < table.len() ==> xf_ok(tables, #[trigger] table@[i], of_cells),
{
    let mut i: usize = 0;
    while i < table.len()
        invariant
            i <= table.len(),
            tables.number_formats.len() == formats,
            tables.fonts.len() == fonts,
            tables.fills.len() == fills,
            tables.borders.len() == borders,
            tables.cell_style_xfs.len() == styles,
            forall|k: int| 0 <= k < i ==> xf_ok(tables, #[trigger] table@[k], of_cells),
        decreases table.len() - i,
    {
        let xf = &table[i];
        let in_range = (xf.font_id as usize) < fonts && (xf.fill_id as usize) < fills && (
        xf.border_id as usize) < borders;
        let plain = xf.apply_font <= 1 && xf.apply_alignment <= 1 && xf.apply_fill <= 1
            && xf.apply_border <= 1 && xf.apply_number_format <= 1 && xf.apply_protection <= 1
            && xf.is_wrap_text <= 1;
        let linked = if of_cells {
            (xf.format_id as usize) < styles || (xf.format_id == 0 && styles == 0)
        } else {
            xf.format_id == 0
        };
        if !(in_range && plain && linked) {
            assert(!xf_ok(tables, table@[i as int], of_cells));
            return false;
        }
        i += 1;
    }
    true
}

/// Whether six lists of entries keep the tables' invariant.
fn tables_valid(
    number_formats: &Vec<NumberFormat>,
    fonts: &Vec<FontStyle>,
    fills: &Vec<FillStyle>,
    borders: &Vec<BorderStyle>,
    cell_style_xfs: &Vec<CellXfs>,
    cell_xfs: &Vec<CellXfs>,
) -> (valid: bool)
    ensures
        valid == tables_of(
            number_formats@,
            fonts@,
            fills@,
            borders@,
            cell_style_xfs@,
            cell_xfs@,
        ).wf(),
{
    let ghost tables = tables_of(
        number_formats@,
        fonts@,
        fills@,
        borders@,
        cell_style_xfs@,
        cell_xfs@,
    );
    if number_formats.len() > MAX_STYLE_ENTRIES || fonts.len() > MAX_STYLE_ENTRIES || fills.len()
        > MAX_STYLE_ENTRIES || borders.len() > MAX_STYLE_ENTRIES || cell_style_xfs.len()
        > MAX_STYLE_ENTRIES || cell_xfs.len() > MAX_STYLE_ENTRIES {
        return false;
    }
    let styles_valid = xfs_valid(
        cell_style_xfs,
        false,
        number_formats.len(),
        fonts.len(),
        fills.len(),
        borders.len(),
        cell_style_xfs.len(),
        Ghost(tables),
    );
    let cells_valid = xfs_valid(
        cell_xfs,
        true,
        number_formats.len(),
        fonts.len(),
        fills.len(),
        borders.len(),
        cell_style_xfs.len(),
        Ghost(tables),
    );
    styles_valid && cells_valid
}

/// The children of a document's root; none where it has no root.
pub open spec fn root_children(document: DocumentModel) -> Seq<Node> {
    match document.parent_or_root(None) {
        Some(root) => document.tree(root).children,
        None => Seq::empty(),
    }
}

impl StylePart {
    /// Reads the six style tables out of the style sheet and takes their
    /// subtrees out of the document: from then on the tables are kept in
    /// memory. A style sheet whose tables cannot be read, or do not keep
    /// the tables' invariant, is refused and left as it was.
    pub(crate) fn load_content(xml_document: &mut XmlDocument) -> (res: Result<
        (
            Vec<NumberFormat>,
            Vec<FontStyle>,
            Vec<FillStyle>,
            Vec<BorderStyle>,
            Vec<CellXfs>,
            Vec<CellXfs>,
        ),
        OfficeError,
    >)
        requires
            old(xml_document).wf(),
        ensures
            final(xml_document).wf(),
            match read_style(root_children(old(xml_document)@)) {
                Some(tables) => (res matches Ok(t) && tables_of(t.0@, t.1@, t.2@, t.3@, t.4@, t.5@)
                    == tables) && final(xml_document)@ == without_style_tables(
                    old(xml_document)@,
                ),
                None => (res matches Err(e) && e == OfficeError::Schema) && final(xml_document)@
                    == old(xml_document)@,
            },
    {
        let root = match xml_document.get_root_id() {
            Some(r) => xml_document.get_tree(r),
            None => None,
        };
        let root = match root {
            Some(node) => node,
            None => XmlNode::new(""),
        };
        assert(root@.children == root_children(xml_document@));
        let number_formats = match root.last_child_named("numFmts") {
            Some(table) => match formats_from_table(table) {
                Ok(records) => records,
                Err(e) => {
                    return Err(e);
                },
            },
            None => Vec::new(),
        };
        let fonts = match root.last_child_named("fonts") {
            Some(table) => match fonts_from_table(table) {
                Ok(records) => records,
                Err(e) => {
                    return Err(e);
                },
            },
            None => Vec::new(),
        };
        let fills = match root.last_child_named("fills") {
            Some(table) => match fills_from_table(table) {
                Ok(records) => records,
                Err(e) => {
                    return Err(e);
                },
            },
            None => Vec::new(),
        };
        let borders = match root.last_child_named("borders") {
            Some(table) => match borders_from_table(table) {
                Ok(records) => records,
                Err(e) => {
                    return Err(e);
                },
            },
            None => Vec::new(),
        };
        let cell_style_xfs = match root.last_child_named("cellStyleXfs") {
            Some(table) => match Self::deserialize_cell_style(table, false) {
                Ok(records) => records,
                Err(e) => {
                    return Err(e);
                },
            },
            None => Vec::new(),
        };
        let cell_xfs = match root.last_child_named("cellXfs") {
            Some(table) => match Self::deserialize_cell_style(table, true) {
                Ok(records) => records,
                Err(e) => {
                    return Err(e);
                },
            },
            None => Vec::new(),
        };
        proof {
            assert(formats_view(number_formats@) =~= read_table(
                root@.children,
                "numFmts"@,
                |n: Node| read_num_fmt(n),
            )->0);
            assert(fonts_view(fonts@) =~= read_table(
                root@.children,
                "fonts"@,
                |n: Node| read_font(n),
            )->0);
            assert(fills_view(fills@) =~= read_table(
                root@.children,
                "fills"@,
                |n: Node| read_fill(n),
            )->0);
            assert(borders_view(borders@) =~= read_table(
                root@.children,
                "borders"@,
                |n: Node| read_border(n),
            )->0);
        }
        if !tables_valid(&number_formats, &fonts, &fills, &borders, &cell_style_xfs, &cell_xfs) {
            return Err(OfficeError::Schema);
        }
        let _ = xml_document.pop_elements_by_tag_mut("numFmts");
        let _ = xml_document.pop_elements_by_tag_mut("fonts");
        let _ = xml_document.pop_elements_by_tag_mut("fills");
        let _ = xml_document.pop_elements_by_tag_mut("borders");
        let _ = xml_document.pop_elements_by_tag_mut("cellStyleXfs");
        let _ = xml_document.pop_elements_by_tag_mut("cellXfs");
        Ok((number_formats, fonts, fills, borders, cell_style_xfs, cell_xfs))
    }

    /// The style part of the style sheet `xml_document`, whose file in the
    /// package is `file_path`. The tables are read and taken out of the
    /// document as `load_content` does.
    pub fn new(xml_document: &mut XmlDocument, file_path: String) -> (res: Result<Self, OfficeError>)
        requires
            old(xml_document).wf(),
        ensures
            final(xml_document).wf(),
            match read_style(root_children(old(xml_document)@)) {
                Some(tables) => (res matches Ok(part) && part.wf() && part@ == tables
                    && part.path() == file_path@) && final(xml_document)@ == without_style_tables(
                    old(xml_document)@,
                ),
                None => (res matches Err(e) && e == OfficeError::Schema) && final(xml_document)@
                    == old(xml_document)@,
            },
    {
        match Self::load_content(xml_document) {
            Ok((number_formats, fonts, fills, borders, cell_style_xfs, cell_xfs)) => Ok(
                Self::from_tables(
                    file_path,
                    number_formats,
                    fonts,
                    fills,
                    borders,
                    cell_style_xfs,
                    cell_xfs,
                ),
            ),
            Err(e) => Err(e),
        }
    }
}

} // verus!
