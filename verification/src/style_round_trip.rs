//! Writing and reading the style tables agree: the elements that are
//! written of the tables read back as the tables.

use vstd::prelude::*;
use crate::order_dictionary::style_order_tags;
use crate::style_models::{
    BorderModel, BorderSideModel, BorderStyle, BorderStyleValues, CellXfs, ColorModel, FillModel,
    FillStyle, FontModel, FontStyle, HorizontalAlignmentValues, NumberFormatModel,
    VerticalAlignmentValues, border_style_text, color_kind_text, font_scheme_text,
    horizontal_alignment_text, lemma_border_style_round_trip, lemma_font_scheme_round_trip,
    lemma_horizontal_alignment_round_trip, lemma_pattern_type_round_trip,
    lemma_vertical_alignment_round_trip, pattern_type_text, vertical_alignment_text,
};
use crate::style_read::{
    alignment_of, border_step, fill_step, fold_all, font_step, number_attribute, number_of_text,
    read_all, read_border, read_color, read_fill, read_font, read_num_fmt, read_side, read_style,
    read_table, read_tables, read_xf, switch_attribute_of, switch_of_text,
};
use crate::style_tables::{StyleModel, xf_is_plain};
use crate::style_write::{
    alignment_attributes, border_node, border_side_node, borders_node, color_node, element,
    fill_node, fills_node, flag_nodes, font_node, fonts_node, has_alignment, num_fmt_node,
    num_fmts_node, opt_color_nodes, style_nodes, val_node, xf_attributes, xf_node, xfs_node,
};
use crate::text::{decimal, lemma_decimal_round_trip};
use crate::xml_document::{lemma_rank_bound, rank_of};
use crate::xml_node::{Node, last_named, node_has_rank, nodes_by_rank, ordered_nodes, retain_nodes};
use crate::xml_tree::attribute_in;

verus! {

/// An attribute where there is a value for it, and nothing else.
pub open spec fn listed(name: Seq<char>, value: Option<Seq<char>>) -> Seq<(Seq<char>, Seq<char>)> {
    match value {
        Some(v) => seq![(name, v)],
        None => Seq::empty(),
    }
}

/// The attributes that a list of names with the values that they have, if
/// any, stands for.
pub open spec fn listed_all(entries: Seq<(Seq<char>, Option<Seq<char>>)>) -> Seq<
    (Seq<char>, Seq<char>),
>
    decreases entries.len(),
{
    if entries.len() == 0 {
        Seq::empty()
    } else {
        listed(entries[0].0, entries[0].1) + listed_all(entries.drop_first())
    }
}

/// The names of a list of names with values.
pub open spec fn entry_names(entries: Seq<(Seq<char>, Option<Seq<char>>)>) -> Seq<Seq<char>> {
    Seq::new(entries.len(), |i: int| entries[i].0)
}

/// Among attributes that stand one list behind another, a name has the
/// value that the first list gives it, or else the one that the second
/// gives it.
pub proof fn lemma_attribute_in_both(
    a: Seq<(Seq<char>, Seq<char>)>,
    b: Seq<(Seq<char>, Seq<char>)>,
    name: Seq<char>,
)
    ensures
        attribute_in(a + b, name) == match attribute_in(a, name) {
            Some(v) => Some(v),
            None => attribute_in(b, name),
        },
    decreases a.len(),
{
    if a.len() == 0 {
        assert(a + b =~= b);
    } else {
        assert((a + b)[0] == a[0]);
        assert((a + b).drop_first() =~= a.drop_first() + b);
        lemma_attribute_in_both(a.drop_first(), b, name);
    }
}

/// Among the attributes of a list of different names, each name has the
/// value that the list gives it, and a name that is not in the list has
/// none.
pub proof fn lemma_listed_all(entries: Seq<(Seq<char>, Option<Seq<char>>)>, name: Seq<char>)
    requires
        entry_names(entries).no_duplicates(),
    ensures
        forall|k: int|
            0 <= k < entries.len() && (#[trigger] entries[k]).0 == name ==> attribute_in(
                listed_all(entries),
                name,
            ) == entries[k].1,
        !entry_names(entries).contains(name) ==> attribute_in(listed_all(entries), name) is None,
    decreases entries.len(),
{
    if entries.len() > 0 {
        let first = entries[0];
        let rest = entries.drop_first();
        assert(entry_names(rest) =~= entry_names(entries).drop_first());
        assert(entry_names(rest).no_duplicates());
        lemma_listed_all(rest, name);
        lemma_attribute_in_both(listed(first.0, first.1), listed_all(rest), name);
        let one = listed(first.0, first.1);
        if first.1 is Some {
            assert(one[0] == (first.0, first.1->0));
            assert(one.drop_first() =~= Seq::<(Seq<char>, Seq<char>)>::empty());
            assert(attribute_in(one.drop_first(), name) is None);
        }
        if first.0 == name {
            assert(!entry_names(rest).contains(name)) by {
                if entry_names(rest).contains(name) {
                    let j = choose|j: int|
                        0 <= j < entry_names(rest).len() && entry_names(rest)[j] == name;
                    assert(entry_names(entries)[j + 1] == entry_names(entries)[0]);
                }
            }
        }
        assert forall|k: int|
            0 <= k < entries.len() && (#[trigger] entries[k]).0 == name implies attribute_in(
            listed_all(entries),
            name,
        ) == entries[k].1 by {
            if k > 0 {
                assert(rest[k - 1] == entries[k]);
                assert(entry_names(entries)[k] == name);
                assert(entry_names(entries)[0] != entry_names(entries)[k]);
            }
        }
        if !entry_names(entries).contains(name) {
            assert(entry_names(entries)[0] == first.0);
            assert(first.0 != name);
            assert(!entry_names(rest).contains(name)) by {
                if entry_names(rest).contains(name) {
                    let j = choose|j: int|
                        0 <= j < entry_names(rest).len() && entry_names(rest)[j] == name;
                    assert(entry_names(entries)[j + 1] == name);
                }
            }
        }
    }
}

/// Taking in one more node is one more step.
pub proof fn lemma_fold_push<T>(
    nodes: Seq<Node>,
    node: Node,
    init: T,
    step: spec_fn(T, Node) -> Option<T>,
)
    ensures
        fold_all(nodes + seq![node], init, step) == match fold_all(nodes, init, step) {
            Some(acc) => step(acc, node),
            None => None,
        },
{
    let longer = nodes + seq![node];
    assert(longer.drop_last() =~= nodes);
    assert(longer.last() == node);
}

/// Taking in nodes one list behind another is taking in the second list
/// from what the first came to.
pub proof fn lemma_fold_both<T>(
    a: Seq<Node>,
    b: Seq<Node>,
    init: T,
    step: spec_fn(T, Node) -> Option<T>,
)
    ensures
        fold_all(a + b, init, step) == match fold_all(a, init, step) {
            Some(acc) => fold_all(b, acc, step),
            None => None,
        },
    decreases b.len(),
{
    if b.len() == 0 {
        assert(a + b =~= a);
    } else {
        let front = b.drop_last();
        assert((a + b).drop_last() =~= a + front);
        assert((a + b).last() == b.last());
        lemma_fold_both(a, front, init, step);
    }
}

/// Where each entry is read from its element as it is, the entries are
/// read from their elements as they are.
pub proof fn lemma_read_all_written<T>(
    entries: Seq<T>,
    nodes: Seq<Node>,
    read: spec_fn(Node) -> Option<T>,
)
    requires
        nodes.len() == entries.len(),
        forall|i: int| 0 <= i < entries.len() ==> read(#[trigger] nodes[i]) == Some(entries[i]),
    ensures
        read_all(nodes, read) == Some(entries),
    decreases nodes.len(),
{
    if nodes.len() == 0 {
        assert(entries =~= Seq::<T>::empty());
    } else {
        lemma_read_all_written(entries.drop_last(), nodes.drop_last(), read);
        assert(read(nodes[nodes.len() - 1]) == Some(entries[entries.len() - 1]));
        assert(entries.drop_last().push(entries.last()) =~= entries);
    }
}

/// The last node of a name among nodes with one more node behind them.
pub proof fn lemma_last_named_push(nodes: Seq<Node>, node: Node, tag: Seq<char>)
    ensures
        last_named(nodes + seq![node], tag) == if node.tag == tag {
            Some(node)
        } else {
            last_named(nodes, tag)
        },
{
    let longer = nodes + seq![node];
    assert(longer.drop_last() =~= nodes);
    assert(longer.last() == node);
}

/// The numeral of a number of 32 bits reads back as the number.
pub proof fn lemma_number_of_text(n: u32)
    ensures
        number_of_text(decimal(n as nat)) == Some(n),
{
    lemma_decimal_round_trip(n as nat);
}

/// The numeral of a set switch reads back as set.
pub proof fn lemma_switch_of_text()
    ensures
        switch_of_text(decimal(1)) == 1,
{
    reveal_strlit("1");
    assert("1"@.len() == 1);
    assert("1"@[0] == '1');
    let d = decimal(1);
    assert(d.len() == 1);
    assert(d[0] as u32 == '1' as u32);
    vstd::utf8::char_u32_cast(d[0], d[0] as u32);
    vstd::utf8::char_u32_cast('1', '1' as u32);
    assert(d =~= "1"@);
}

/// A color's element reads back as the color.
pub proof fn lemma_read_color(tag: Seq<char>, color: ColorModel)
    ensures
        read_color(color_node(tag, color).attributes) == Some(color),
{
    reveal_strlit("theme");
    reveal_strlit("rgb");
    reveal_strlit("indexed");
    assert("theme"@.len() == 5 && "rgb"@.len() == 3 && "indexed"@.len() == 7);
    let a = color_node(tag, color).attributes;
    assert(a[0] == (color_kind_text(color.kind), color.value));
    assert(a.drop_first() =~= Seq::<(Seq<char>, Seq<char>)>::empty());
    assert(attribute_in(a.drop_first(), "theme"@) is None);
    assert(attribute_in(a.drop_first(), "rgb"@) is None);
    assert(attribute_in(a.drop_first(), "indexed"@) is None);
}

/// A number format's element reads back as the number format.
pub proof fn lemma_read_num_fmt(format: NumberFormatModel)
    ensures
        read_num_fmt(num_fmt_node(format)) == Some(format),
{
    reveal_strlit("numFmtId");
    reveal_strlit("formatCode");
    assert("numFmtId"@.len() == 8 && "formatCode"@.len() == 10);
    let a = num_fmt_node(format).attributes;
    assert(a[0] == ("numFmtId"@, decimal(format.format_id as nat)));
    let rest = a.drop_first();
    assert(rest[0] == ("formatCode"@, format.format_code));
    assert(attribute_in(rest, "formatCode"@) == Some(format.format_code));
    assert(attribute_in(a, "formatCode"@) == Some(format.format_code));
    assert(attribute_in(a, "numFmtId"@) == Some(decimal(format.format_id as nat)));
    lemma_number_of_text(format.format_id);
}

/// Taking in no node leaves what there was.
pub proof fn lemma_fold_empty<T>(init: T, step: spec_fn(T, Node) -> Option<T>)
    ensures
        fold_all(Seq::<Node>::empty(), init, step) == Some(init),
{
}

/// Taking in one node is one step.
pub proof fn lemma_fold_one<T>(node: Node, init: T, step: spec_fn(T, Node) -> Option<T>)
    ensures
        fold_all(seq![node], init, step) == step(init, node),
{
    let one = seq![node];
    assert(one.drop_last() =~= Seq::<Node>::empty());
    assert(one.last() == node);
    assert(fold_all(one.drop_last(), init, step) == Some(init));
}

/// The one attribute of an element is found under its name.
pub proof fn lemma_one_attribute(name: Seq<char>, value: Seq<char>, asked: Seq<char>)
    ensures
        attribute_in(seq![(name, value)], asked) == if name == asked {
            Some(value)
        } else {
            None
        },
{
    let a = seq![(name, value)];
    assert(a[0] == (name, value));
    assert(a.drop_first() =~= Seq::<(Seq<char>, Seq<char>)>::empty());
    assert(attribute_in(a.drop_first(), asked) is None);
}

/// What is known of the names of a font's children.
pub proof fn lemma_font_names()
    ensures
        "b"@ != "i"@,
        "b"@ != "u"@,
        "i"@ != "u"@,
        "sz"@.len() == 2,
        "b"@.len() == 1,
        "i"@.len() == 1,
        "u"@.len() == 1,
        "color"@.len() == 5,
        "name"@.len() == 4,
        "family"@.len() == 6,
        "scheme"@.len() == 6,
        "family"@ != "scheme"@,
{
    reveal_strlit("b");
    reveal_strlit("i");
    reveal_strlit("u");
    reveal_strlit("sz");
    reveal_strlit("color");
    reveal_strlit("name");
    reveal_strlit("family");
    reveal_strlit("scheme");
    assert("b"@[0] == 'b' && "i"@[0] == 'i' && "u"@[0] == 'u');
    assert("family"@[0] == 'f' && "scheme"@[0] == 's');
}

/// A font's element reads back as the font.
pub proof fn lemma_read_font(font: FontModel)
    ensures
        read_font(font_node(font)) == Some(font),
{
    lemma_font_names();
    let step = |f: FontModel, c: Node| font_step(f, c);
    let init = FontStyle::default_model();
    let bold = flag_nodes("b"@, font.is_bold);
    let italic = flag_nodes("i"@, font.is_italic);
    let under = flag_nodes("u"@, font.is_underline);
    let double = if font.is_double_underline {
        seq![val_node("u"@, "double"@)]
    } else {
        Seq::<Node>::empty()
    };
    let size = val_node("sz"@, decimal(font.size as nat));
    let color = color_node("color"@, font.color);
    let name = val_node("name"@, font.name);
    let family = val_node("family"@, decimal(font.family as nat));
    let scheme = val_node("scheme"@, font_scheme_text(font.font_scheme));
    let flags = bold + italic + under + double;
    let children = font_node(font).children;
    assert(children =~= flags + seq![size] + seq![color] + seq![name] + seq![family] + seq![
        scheme,
    ]);
    let f1 = FontModel { is_bold: font.is_bold, ..init };
    let f2 = FontModel { is_italic: font.is_italic, ..f1 };
    let f3 = FontModel { is_underline: font.is_underline, ..f2 };
    let f4 = FontModel { is_double_underline: font.is_double_underline, ..f3 };
    let f5 = FontModel { size: font.size, ..f4 };
    let f6 = FontModel { color: font.color, ..f5 };
    let f7 = FontModel { name: font.name, ..f6 };
    let f8 = FontModel { family: font.family, ..f7 };
    assert(fold_all(bold, init, step) == Some(f1)) by {
        if font.is_bold {
            lemma_fold_one(Node::leaf("b"@), init, step);
        }
    }
    assert(fold_all(bold + italic, init, step) == Some(f2)) by {
        lemma_fold_both(bold, italic, init, step);
        if font.is_italic {
            lemma_fold_one(Node::leaf("i"@), f1, step);
        }
    }
    assert(fold_all(bold + italic + under, init, step) == Some(f3)) by {
        lemma_fold_both(bold + italic, under, init, step);
        if font.is_underline {
            lemma_fold_one(Node::leaf("u"@), f2, step);
            assert(Node::leaf("u"@).attribute("val"@) is None);
        }
    }
    assert(fold_all(flags, init, step) == Some(f4)) by {
        lemma_fold_both(bold + italic + under, double, init, step);
        if font.is_double_underline {
            lemma_fold_one(val_node("u"@, "double"@), f3, step);
            lemma_one_attribute("val"@, "double"@, "val"@);
        }
    }
    assert(fold_all(flags + seq![size], init, step) == Some(f5)) by {
        lemma_fold_push(flags, size, init, step);
        lemma_one_attribute("val"@, decimal(font.size as nat), "val"@);
        lemma_number_of_text(font.size);
    }
    assert(fold_all(flags + seq![size] + seq![color], init, step) == Some(f6)) by {
        lemma_fold_push(flags + seq![size], color, init, step);
        lemma_read_color("color"@, font.color);
    }
    assert(fold_all(flags + seq![size] + seq![color] + seq![name], init, step) == Some(f7)) by {
        lemma_fold_push(flags + seq![size] + seq![color], name, init, step);
        lemma_one_attribute("val"@, font.name, "val"@);
    }
    assert(fold_all(flags + seq![size] + seq![color] + seq![name] + seq![family], init, step)
        == Some(f8)) by {
        lemma_fold_push(flags + seq![size] + seq![color] + seq![name], family, init, step);
        lemma_one_attribute("val"@, decimal(font.family as nat), "val"@);
        lemma_number_of_text(font.family);
    }
    assert(fold_all(children, init, step) == Some(font)) by {
        lemma_fold_push(
            flags + seq![size] + seq![color] + seq![name] + seq![family],
            scheme,
            init,
            step,
        );
        lemma_one_attribute("val"@, font_scheme_text(font.font_scheme), "val"@);
        lemma_font_scheme_round_trip(font.font_scheme);
    }
}

/// A fill's element reads back as the fill.
pub proof fn lemma_read_fill(fill: FillModel)
    ensures
        read_fill(fill_node(fill)) == Some(fill),
{
    reveal_strlit("fgColor");
    reveal_strlit("bgColor");
    assert("fgColor"@.len() == 7 && "bgColor"@.len() == 7);
    assert("fgColor"@[0] == 'f' && "bgColor"@[0] == 'b');
    let step = |f: FillModel, c: Node| fill_step(f, c);
    let node = fill_node(fill);
    let pattern = node.children[0];
    let front = opt_color_nodes("fgColor"@, fill.foreground_color);
    let back = opt_color_nodes("bgColor"@, fill.background_color);
    assert(pattern.children == front + back);
    lemma_one_attribute("patternType"@, pattern_type_text(fill.pattern_type), "patternType"@);
    lemma_pattern_type_round_trip(fill.pattern_type);
    let init = FillModel { pattern_type: fill.pattern_type, ..FillStyle::default_model() };
    let f1 = FillModel { foreground_color: fill.foreground_color, ..init };
    assert(fold_all(front, init, step) == Some(f1)) by {
        match fill.foreground_color {
            Some(color) => {
                lemma_fold_one(color_node("fgColor"@, color), init, step);
                lemma_read_color("fgColor"@, color);
            },
            None => {},
        }
    }
    assert(fold_all(front + back, init, step) == Some(fill)) by {
        lemma_fold_both(front, back, init, step);
        match fill.background_color {
            Some(color) => {
                lemma_fold_one(color_node("bgColor"@, color), f1, step);
                lemma_read_color("bgColor"@, color);
            },
            None => {},
        }
    }
}

/// The element of a side of a border reads back as the side.
pub proof fn lemma_read_side(tag: Seq<char>, side: BorderSideModel)
    ensures
        read_side(border_side_node(tag, side)) == side,
        border_side_node(tag, side).tag == tag,
{
    let node = border_side_node(tag, side);
    if side.style != BorderStyleValues::Unset {
        lemma_one_attribute("style"@, border_style_text(side.style), "style"@);
        lemma_border_style_round_trip(side.style);
    } else {
        assert(node.attribute("style"@) is None);
    }
    match side.border_color {
        Some(color) => {
            lemma_read_color("color"@, color);
            assert(node.children[0] == color_node("color"@, color));
        },
        None => {},
    }
}

/// A border's element reads back as the border.
pub proof fn lemma_read_border(border: BorderModel)
    ensures
        read_border(border_node(border)) == Some(border),
{
    reveal_strlit("left");
    reveal_strlit("right");
    reveal_strlit("top");
    reveal_strlit("bottom");
    reveal_strlit("diagonal");
    assert("left"@.len() == 4 && "right"@.len() == 5 && "top"@.len() == 3 && "bottom"@.len() == 6
        && "diagonal"@.len() == 8);
    let step = |b: BorderModel, c: Node| border_step(b, c);
    let init = BorderStyle::default_model();
    let left = border_side_node("left"@, border.left);
    let right = border_side_node("right"@, border.right);
    let top = border_side_node("top"@, border.top);
    let bottom = border_side_node("bottom"@, border.bottom);
    let diagonal = border_side_node("diagonal"@, border.diagonal);
    lemma_read_side("left"@, border.left);
    lemma_read_side("right"@, border.right);
    lemma_read_side("top"@, border.top);
    lemma_read_side("bottom"@, border.bottom);
    lemma_read_side("diagonal"@, border.diagonal);
    let children = border_node(border).children;
    let none = Seq::<Node>::empty();
    assert(children =~= none + seq![left] + seq![right] + seq![top] + seq![bottom] + seq![
        diagonal,
    ]);
    let b1 = BorderModel { left: border.left, ..init };
    let b2 = BorderModel { right: border.right, ..b1 };
    let b3 = BorderModel { top: border.top, ..b2 };
    let b4 = BorderModel { bottom: border.bottom, ..b3 };
    assert(fold_all(none + seq![left], init, step) == Some(b1)) by {
        lemma_fold_push(none, left, init, step);
    }
    assert(fold_all(none + seq![left] + seq![right], init, step) == Some(b2)) by {
        lemma_fold_push(none + seq![left], right, init, step);
    }
    assert(fold_all(none + seq![left] + seq![right] + seq![top], init, step) == Some(b3)) by {
        lemma_fold_push(none + seq![left] + seq![right], top, init, step);
    }
    assert(fold_all(none + seq![left] + seq![right] + seq![top] + seq![bottom], init, step)
        == Some(b4)) by {
        lemma_fold_push(none + seq![left] + seq![right] + seq![top], bottom, init, step);
    }
    assert(fold_all(children, init, step) == Some(border)) by {
        lemma_fold_push(
            none + seq![left] + seq![right] + seq![top] + seq![bottom],
            diagonal,
            init,
            step,
        );
    }
}

/// The value of a switch where it is set, and nothing where it is not.
pub open spec fn switch_value(value: u8) -> Option<Seq<char>> {
    if value > 0 {
        Some(decimal(value as nat))
    } else {
        None
    }
}

/// The attributes of a cell format, each name with the value that it has,
/// if any.
pub open spec fn xf_entries(xf: CellXfs, with_format_id: bool) -> Seq<
    (Seq<char>, Option<Seq<char>>),
> {
    seq![
        ("numFmtId"@, Some(decimal(xf.number_format_id as nat))),
        ("fontId"@, Some(decimal(xf.font_id as nat))),
        ("fillId"@, Some(decimal(xf.fill_id as nat))),
        ("borderId"@, Some(decimal(xf.border_id as nat))),
        (
            "xfId"@,
            if with_format_id {
                Some(decimal(xf.format_id as nat))
            } else {
                None
            },
        ),
        ("applyFont"@, switch_value(xf.apply_font)),
        ("applyAlignment"@, switch_value(xf.apply_alignment)),
        ("applyFill"@, switch_value(xf.apply_fill)),
        ("applyBorder"@, switch_value(xf.apply_border)),
        ("applyNumberFormat"@, switch_value(xf.apply_number_format)),
        ("applyProtection"@, switch_value(xf.apply_protection)),
    ]
}

/// The attributes of the alignment of a cell format, each name with the
/// value that it has, if any.
pub open spec fn alignment_entries(xf: CellXfs) -> Seq<(Seq<char>, Option<Seq<char>>)> {
    seq![
        ("wrapText"@, switch_value(xf.is_wrap_text)),
        (
            "vertical"@,
            if xf.vertical_alignment != VerticalAlignmentValues::Unset {
                Some(vertical_alignment_text(xf.vertical_alignment))
            } else {
                None
            },
        ),
        (
            "horizontal"@,
            if xf.horizontal_alignment != HorizontalAlignmentValues::Unset {
                Some(horizontal_alignment_text(xf.horizontal_alignment))
            } else {
                None
            },
        ),
    ]
}

/// The names of the attributes of a cell format are different.
pub proof fn lemma_xf_names_differ()
    ensures
        "numFmtId"@ != "fontId"@,
        "numFmtId"@ != "fillId"@,
        "numFmtId"@ != "borderId"@,
        "numFmtId"@ != "xfId"@,
        "numFmtId"@ != "applyFont"@,
        "numFmtId"@ != "applyAlignment"@,
        "numFmtId"@ != "applyFill"@,
        "numFmtId"@ != "applyBorder"@,
        "numFmtId"@ != "applyNumberFormat"@,
        "numFmtId"@ != "applyProtection"@,
        "fontId"@ != "fillId"@,
        "fontId"@ != "borderId"@,
        "fontId"@ != "xfId"@,
        "fontId"@ != "applyFont"@,
        "fontId"@ != "applyAlignment"@,
        "fontId"@ != "applyFill"@,
        "fontId"@ != "applyBorder"@,
        "fontId"@ != "applyNumberFormat"@,
        "fontId"@ != "applyProtection"@,
        "fillId"@ != "borderId"@,
        "fillId"@ != "xfId"@,
        "fillId"@ != "applyFont"@,
        "fillId"@ != "applyAlignment"@,
        "fillId"@ != "applyFill"@,
        "fillId"@ != "applyBorder"@,
        "fillId"@ != "applyNumberFormat"@,
        "fillId"@ != "applyProtection"@,
        "borderId"@ != "xfId"@,
        "borderId"@ != "applyFont"@,
        "borderId"@ != "applyAlignment"@,
        "borderId"@ != "applyFill"@,
        "borderId"@ != "applyBorder"@,
        "borderId"@ != "applyNumberFormat"@,
        "borderId"@ != "applyProtection"@,
        "xfId"@ != "applyFont"@,
        "xfId"@ != "applyAlignment"@,
        "xfId"@ != "applyFill"@,
        "xfId"@ != "applyBorder"@,
        "xfId"@ != "applyNumberFormat"@,
        "xfId"@ != "applyProtection"@,
        "applyFont"@ != "applyAlignment"@,
        "applyFont"@ != "applyFill"@,
        "applyFont"@ != "applyBorder"@,
        "applyFont"@ != "applyNumberFormat"@,
        "applyFont"@ != "applyProtection"@,
        "applyAlignment"@ != "applyFill"@,
        "applyAlignment"@ != "applyBorder"@,
        "applyAlignment"@ != "applyNumberFormat"@,
        "applyAlignment"@ != "applyProtection"@,
        "applyFill"@ != "applyBorder"@,
        "applyFill"@ != "applyNumberFormat"@,
        "applyFill"@ != "applyProtection"@,
        "applyBorder"@ != "applyNumberFormat"@,
        "applyBorder"@ != "applyProtection"@,
        "applyNumberFormat"@ != "applyProtection"@,
{
    reveal_strlit("numFmtId");
    reveal_strlit("fontId");
    reveal_strlit("fillId");
    reveal_strlit("borderId");
    reveal_strlit("xfId");
    reveal_strlit("applyFont");
    reveal_strlit("applyAlignment");
    reveal_strlit("applyFill");
    reveal_strlit("applyBorder");
    reveal_strlit("applyNumberFormat");
    reveal_strlit("applyProtection");
    assert("numFmtId"@.len() == 8);
    assert("fontId"@.len() == 6);
    assert("fillId"@.len() == 6);
    assert("borderId"@.len() == 8);
    assert("xfId"@.len() == 4);
    assert("applyFont"@.len() == 9);
    assert("applyAlignment"@.len() == 14);
    assert("applyFill"@.len() == 9);
    assert("applyBorder"@.len() == 11);
    assert("applyNumberFormat"@.len() == 17);
    assert("applyProtection"@.len() == 15);
    assert("applyFill"@[6] == 'i');
    assert("applyFont"@[6] == 'o');
    assert("borderId"@[0] == 'b');
    assert("fillId"@[1] == 'i');
    assert("fontId"@[1] == 'o');
    assert("numFmtId"@[0] == 'n');
}

/// The names of the attributes of a cell format are different.
pub proof fn lemma_xf_entry_names(xf: CellXfs, with_format_id: bool)
    ensures
        entry_names(xf_entries(xf, with_format_id)).no_duplicates(),
{
    let entries = xf_entries(xf, with_format_id);
    let names = entry_names(entries);
    lemma_xf_names_differ();
    assert(names.len() == 11);
    assert(names[0] == "numFmtId"@);
    assert(names[1] == "fontId"@);
    assert(names[2] == "fillId"@);
    assert(names[3] == "borderId"@);
    assert(names[4] == "xfId"@);
    assert(names[5] == "applyFont"@);
    assert(names[6] == "applyAlignment"@);
    assert(names[7] == "applyFill"@);
    assert(names[8] == "applyBorder"@);
    assert(names[9] == "applyNumberFormat"@);
    assert(names[10] == "applyProtection"@);
}

/// The attributes of a list with one more name behind it are those of the
/// list with the attribute of that name, if it has a value, behind them.
pub proof fn lemma_listed_push(
    entries: Seq<(Seq<char>, Option<Seq<char>>)>,
    entry: (Seq<char>, Option<Seq<char>>),
)
    ensures
        listed_all(entries + seq![entry]) == listed_all(entries) + listed(entry.0, entry.1),
    decreases entries.len(),
{
    let longer = entries + seq![entry];
    if entries.len() == 0 {
        assert(longer[0] == entry);
        assert(longer.drop_first() =~= Seq::<(Seq<char>, Option<Seq<char>>)>::empty());
        assert(listed_all(longer.drop_first()) =~= Seq::<(Seq<char>, Seq<char>)>::empty());
        assert(listed_all(entries) =~= Seq::<(Seq<char>, Seq<char>)>::empty());
        assert(listed_all(longer) =~= listed(entry.0, entry.1));
        assert(listed_all(entries) + listed(entry.0, entry.1) =~= listed(entry.0, entry.1));
    } else {
        assert(longer[0] == entries[0]);
        assert(longer.drop_first() =~= entries.drop_first() + seq![entry]);
        lemma_listed_push(entries.drop_first(), entry);
        assert(listed_all(longer) =~= listed_all(entries) + listed(entry.0, entry.1));
    }
}

/// The attributes of a cell format are those that their names have values
/// for.
#[verifier::rlimit(40)]
pub proof fn lemma_xf_entries_listed(xf: CellXfs, with_format_id: bool)
    ensures
        xf_attributes(xf, with_format_id) == listed_all(xf_entries(xf, with_format_id)),
{
    let entries = xf_entries(xf, with_format_id);
    let c0 = Seq::<(Seq<char>, Option<Seq<char>>)>::empty();
    assert(listed_all(c0) =~= Seq::<(Seq<char>, Seq<char>)>::empty());
    let c1 = c0 + seq![entries[0]];
    lemma_listed_push(c0, entries[0]);
    let c2 = c1 + seq![entries[1]];
    lemma_listed_push(c1, entries[1]);
    let c3 = c2 + seq![entries[2]];
    lemma_listed_push(c2, entries[2]);
    let c4 = c3 + seq![entries[3]];
    lemma_listed_push(c3, entries[3]);
    let c5 = c4 + seq![entries[4]];
    lemma_listed_push(c4, entries[4]);
    let c6 = c5 + seq![entries[5]];
    lemma_listed_push(c5, entries[5]);
    let c7 = c6 + seq![entries[6]];
    lemma_listed_push(c6, entries[6]);
    let c8 = c7 + seq![entries[7]];
    lemma_listed_push(c7, entries[7]);
    let c9 = c8 + seq![entries[8]];
    lemma_listed_push(c8, entries[8]);
    let c10 = c9 + seq![entries[9]];
    lemma_listed_push(c9, entries[9]);
    let c11 = c10 + seq![entries[10]];
    lemma_listed_push(c10, entries[10]);
    assert(c11 =~= entries);
    assert(listed_all(c4) =~= seq![
        ("numFmtId"@, decimal(xf.number_format_id as nat)),
        ("fontId"@, decimal(xf.font_id as nat)),
        ("fillId"@, decimal(xf.fill_id as nat)),
        ("borderId"@, decimal(xf.border_id as nat)),
    ]);
    assert(listed_all(c11) =~= xf_attributes(xf, with_format_id));
}

/// The names of the attributes of a cell format are different, and the
/// attributes are those that the names have values for.
pub proof fn lemma_xf_entries(xf: CellXfs, with_format_id: bool)
    ensures
        entry_names(xf_entries(xf, with_format_id)).no_duplicates(),
        xf_attributes(xf, with_format_id) == listed_all(xf_entries(xf, with_format_id)),
{
    lemma_xf_entry_names(xf, with_format_id);
    lemma_xf_entries_listed(xf, with_format_id);
}

/// The names of the attributes of an alignment are different, and the
/// attributes are those that the names have values for.
pub proof fn lemma_alignment_entries(xf: CellXfs)
    ensures
        entry_names(alignment_entries(xf)).no_duplicates(),
        alignment_attributes(xf) == listed_all(alignment_entries(xf)),
{
    reveal_strlit("wrapText");
    reveal_strlit("vertical");
    reveal_strlit("horizontal");
    assert("wrapText"@.len() == 8 && "vertical"@.len() == 8 && "horizontal"@.len() == 10);
    assert("wrapText"@[0] == 'w' && "vertical"@[0] == 'v');
    let entries = alignment_entries(xf);
    let names = entry_names(entries);
    assert(names[0] == "wrapText"@ && names[1] == "vertical"@ && names[2] == "horizontal"@);
    reveal_with_fuel(listed_all, 4);
    let e1 = entries.drop_first();
    let e2 = e1.drop_first();
    let e3 = e2.drop_first();
    assert(e3.len() == 0);
    assert(listed_all(entries) =~= alignment_attributes(xf));
}

/// A set switch that is written reads back as set, and one that is not
/// set and not written reads back as not set.
pub proof fn lemma_read_switch(
    attributes: Seq<(Seq<char>, Seq<char>)>,
    name: Seq<char>,
    value: u8,
)
    requires
        value <= 1,
        attribute_in(attributes, name) == switch_value(value),
    ensures
        switch_attribute_of(attributes, name) == value,
{
    lemma_switch_of_text();
}

/// The element of a cell format reads back as the cell format, where the
/// switches of the format are 0 or 1, and the place of its named style is
/// 0 where that place is not written.
pub proof fn lemma_read_xf(xf: CellXfs, with_format_id: bool)
    requires
        xf_is_plain(xf),
        with_format_id || xf.format_id == 0,
    ensures
        read_xf(xf_node(xf, with_format_id), with_format_id) == Some(xf),
{
    let node = xf_node(xf, with_format_id);
    let a = node.attributes;
    let entries = xf_entries(xf, with_format_id);
    lemma_xf_entries(xf, with_format_id);
    lemma_listed_all(entries, "numFmtId"@);
    lemma_listed_all(entries, "fontId"@);
    lemma_listed_all(entries, "fillId"@);
    lemma_listed_all(entries, "borderId"@);
    lemma_listed_all(entries, "xfId"@);
    lemma_listed_all(entries, "applyFont"@);
    lemma_listed_all(entries, "applyAlignment"@);
    lemma_listed_all(entries, "applyFill"@);
    lemma_listed_all(entries, "applyBorder"@);
    lemma_listed_all(entries, "applyNumberFormat"@);
    lemma_listed_all(entries, "applyProtection"@);
    assert(entries[0].0 == "numFmtId"@ && entries[1].0 == "fontId"@ && entries[2].0 == "fillId"@
        && entries[3].0 == "borderId"@ && entries[4].0 == "xfId"@ && entries[5].0 == "applyFont"@
        && entries[6].0 == "applyAlignment"@ && entries[7].0 == "applyFill"@ && entries[8].0
        == "applyBorder"@ && entries[9].0 == "applyNumberFormat"@ && entries[10].0
        == "applyProtection"@);
    lemma_number_of_text(xf.number_format_id);
    lemma_number_of_text(xf.font_id);
    lemma_number_of_text(xf.fill_id);
    lemma_number_of_text(xf.border_id);
    lemma_number_of_text(xf.format_id);
    assert(number_attribute(a, "numFmtId"@, 0) == Some(xf.number_format_id));
    assert(number_attribute(a, "fontId"@, 0) == Some(xf.font_id));
    assert(number_attribute(a, "fillId"@, 0) == Some(xf.fill_id));
    assert(number_attribute(a, "borderId"@, 0) == Some(xf.border_id));
    assert(number_attribute(a, "xfId"@, 0) == Some(
        if with_format_id {
            xf.format_id
        } else {
            0u32
        },
    ));
    lemma_read_switch(a, "applyFont"@, xf.apply_font);
    lemma_read_switch(a, "applyAlignment"@, xf.apply_alignment);
    lemma_read_switch(a, "applyFill"@, xf.apply_fill);
    lemma_read_switch(a, "applyBorder"@, xf.apply_border);
    lemma_read_switch(a, "applyNumberFormat"@, xf.apply_number_format);
    lemma_read_switch(a, "applyProtection"@, xf.apply_protection);
    let alignment = alignment_of(node);
    let settings = alignment_entries(xf);
    lemma_alignment_entries(xf);
    lemma_listed_all(settings, "wrapText"@);
    lemma_listed_all(settings, "vertical"@);
    lemma_listed_all(settings, "horizontal"@);
    assert(settings[0].0 == "wrapText"@ && settings[1].0 == "vertical"@ && settings[2].0
        == "horizontal"@);
    lemma_vertical_alignment_round_trip(xf.vertical_alignment);
    lemma_horizontal_alignment_round_trip(xf.horizontal_alignment);
    if has_alignment(xf) {
        assert(node.children[0].attributes == alignment_attributes(xf));
        lemma_read_switch(alignment, "wrapText"@, xf.is_wrap_text);
    } else {
        assert(alignment =~= Seq::<(Seq<char>, Seq<char>)>::empty());
        assert(attribute_in(alignment, "wrapText"@) is None);
        assert(attribute_in(alignment, "vertical"@) is None);
        assert(attribute_in(alignment, "horizontal"@) is None);
    }
}

/// The last node of a name among nodes that stand one list behind another
/// is the last of that name in the second list, or else the last of that
/// name in the first.
pub proof fn lemma_last_named_both(a: Seq<Node>, b: Seq<Node>, tag: Seq<char>)
    ensures
        last_named(a + b, tag) == match last_named(b, tag) {
            Some(node) => Some(node),
            None => last_named(a, tag),
        },
    decreases b.len(),
{
    if b.len() == 0 {
        assert(a + b =~= a);
    } else {
        assert((a + b).drop_last() =~= a + b.drop_last());
        assert((a + b).last() == b.last());
        lemma_last_named_both(a, b.drop_last(), tag);
    }
}

/// Keeping the nodes of one rank keeps the last node of a name of that
/// rank, and keeps no node of a name of another rank.
pub proof fn lemma_last_named_retain(nodes: Seq<Node>, order: Seq<Seq<char>>, r: nat, tag: Seq<char>)
    ensures
        last_named(retain_nodes(nodes, node_has_rank(order, r)), tag) == if rank_of(tag, order)
            == r {
            last_named(nodes, tag)
        } else {
            None
        },
    decreases nodes.len(),
{
    let keep = node_has_rank(order, r);
    if nodes.len() > 0 {
        let front = nodes.drop_last();
        let last = nodes.last();
        lemma_last_named_retain(front, order, r, tag);
        if keep(last) {
            lemma_last_named_push(retain_nodes(front, keep), last, tag);
            assert(retain_nodes(front, keep).push(last) =~= retain_nodes(front, keep) + seq![last]);
        }
    }
}

/// Putting nodes in order by rank keeps the last node of each name whose
/// rank is among the ranks taken.
pub proof fn lemma_last_named_by_rank(
    nodes: Seq<Node>,
    order: Seq<Seq<char>>,
    bound: nat,
    tag: Seq<char>,
)
    ensures
        last_named(nodes_by_rank(nodes, order, bound), tag) == if rank_of(tag, order) < bound {
            last_named(nodes, tag)
        } else {
            None
        },
    decreases bound,
{
    if bound > 0 {
        let r = (bound - 1) as nat;
        lemma_last_named_by_rank(nodes, order, r, tag);
        lemma_last_named_retain(nodes, order, r, tag);
        lemma_last_named_both(
            nodes_by_rank(nodes, order, r),
            retain_nodes(nodes, node_has_rank(order, r)),
            tag,
        );
    }
}

/// Putting nodes in the order of a schema keeps the last node of every
/// name.
pub proof fn lemma_last_named_ordered(nodes: Seq<Node>, order: Seq<Seq<char>>, tag: Seq<char>)
    ensures
        last_named(ordered_nodes(nodes, order), tag) == last_named(nodes, tag),
{
    lemma_rank_bound(tag, order);
    lemma_last_named_by_rank(nodes, order, order.len() + 1, tag);
}

/// The names of the six style tables are different.
pub proof fn lemma_table_names_differ()
    ensures
        "numFmts"@ != "fonts"@,
        "numFmts"@ != "fills"@,
        "numFmts"@ != "borders"@,
        "numFmts"@ != "cellStyleXfs"@,
        "numFmts"@ != "cellXfs"@,
        "fonts"@ != "fills"@,
        "fonts"@ != "borders"@,
        "fonts"@ != "cellStyleXfs"@,
        "fonts"@ != "cellXfs"@,
        "fills"@ != "borders"@,
        "fills"@ != "cellStyleXfs"@,
        "fills"@ != "cellXfs"@,
        "borders"@ != "cellStyleXfs"@,
        "borders"@ != "cellXfs"@,
        "cellStyleXfs"@ != "cellXfs"@,
{
    reveal_strlit("numFmts");
    reveal_strlit("fonts");
    reveal_strlit("fills");
    reveal_strlit("borders");
    reveal_strlit("cellStyleXfs");
    reveal_strlit("cellXfs");
    assert("numFmts"@.len() == 7);
    assert("fonts"@.len() == 5);
    assert("fills"@.len() == 5);
    assert("borders"@.len() == 7);
    assert("cellStyleXfs"@.len() == 12);
    assert("cellXfs"@.len() == 7);
    assert("borders"@[0] == 'b');
    assert("cellXfs"@[0] == 'c');
    assert("fills"@[1] == 'i');
    assert("fonts"@[1] == 'o');
    assert("numFmts"@[0] == 'n');
}

/// Among nodes with the elements of the six style tables behind them, the
/// last node of the name of each table is the element of that table.
pub proof fn lemma_style_table_nodes(prior: Seq<Node>, tables: StyleModel)
    ensures
        last_named(prior + style_nodes(tables), "numFmts"@) == Some(
            num_fmts_node(tables.number_formats),
        ),
        last_named(prior + style_nodes(tables), "fonts"@) == Some(fonts_node(tables.fonts)),
        last_named(prior + style_nodes(tables), "fills"@) == Some(fills_node(tables.fills)),
        last_named(prior + style_nodes(tables), "borders"@) == Some(borders_node(tables.borders)),
        last_named(prior + style_nodes(tables), "cellStyleXfs"@) == Some(
            xfs_node(tables.cell_style_xfs, false),
        ),
        last_named(prior + style_nodes(tables), "cellXfs"@) == Some(
            xfs_node(tables.cell_xfs, true),
        ),
{
    lemma_table_names_differ();
    let n1 = num_fmts_node(tables.number_formats);
    let n2 = fonts_node(tables.fonts);
    let n3 = fills_node(tables.fills);
    let n4 = borders_node(tables.borders);
    let n5 = xfs_node(tables.cell_xfs, true);
    let n6 = xfs_node(tables.cell_style_xfs, false);
    let c1 = prior + seq![n1];
    let c2 = c1 + seq![n2];
    let c3 = c2 + seq![n3];
    let c4 = c3 + seq![n4];
    let c5 = c4 + seq![n5];
    let c6 = c5 + seq![n6];
    assert(c6 =~= prior + style_nodes(tables));
    assert forall|tag: Seq<char>| #![auto] true implies last_named(c6, tag) == (if n6.tag == tag {
        Some(n6)
    } else if n5.tag == tag {
        Some(n5)
    } else if n4.tag == tag {
        Some(n4)
    } else if n3.tag == tag {
        Some(n3)
    } else if n2.tag == tag {
        Some(n2)
    } else if n1.tag == tag {
        Some(n1)
    } else {
        last_named(prior, tag)
    }) by {
        lemma_last_named_push(c5, n6, tag);
        lemma_last_named_push(c4, n5, tag);
        lemma_last_named_push(c3, n4, tag);
        lemma_last_named_push(c2, n3, tag);
        lemma_last_named_push(c1, n2, tag);
        lemma_last_named_push(prior, n1, tag);
    }
}

/// Nodes among which the last node of the name of each style table is the
/// element of that table of well-formed tables read as those tables.
pub proof fn lemma_read_style_of(nodes: Seq<Node>, tables: StyleModel)
    requires
        tables.wf(),
        last_named(nodes, "numFmts"@) == Some(num_fmts_node(tables.number_formats)),
        last_named(nodes, "fonts"@) == Some(fonts_node(tables.fonts)),
        last_named(nodes, "fills"@) == Some(fills_node(tables.fills)),
        last_named(nodes, "borders"@) == Some(borders_node(tables.borders)),
        last_named(nodes, "cellStyleXfs"@) == Some(xfs_node(tables.cell_style_xfs, false)),
        last_named(nodes, "cellXfs"@) == Some(xfs_node(tables.cell_xfs, true)),
    ensures
        read_style(nodes) == Some(tables),
{
    let formats = tables.number_formats;
    assert(read_table(nodes, "numFmts"@, |n: Node| read_num_fmt(n)) == Some(formats)) by {
        let written = num_fmts_node(formats).children;
        assert forall|i: int| 0 <= i < formats.len() implies read_num_fmt(
            #[trigger] written[i],
        ) == Some(formats[i]) by {
            lemma_read_num_fmt(formats[i]);
        }
        lemma_read_all_written(formats, written, |n: Node| read_num_fmt(n));
    }
    let fonts = tables.fonts;
    assert(read_table(nodes, "fonts"@, |n: Node| read_font(n)) == Some(fonts)) by {
        let written = fonts_node(fonts).children;
        assert forall|i: int| 0 <= i < fonts.len() implies read_font(#[trigger] written[i])
            == Some(fonts[i]) by {
            lemma_read_font(fonts[i]);
        }
        lemma_read_all_written(fonts, written, |n: Node| read_font(n));
    }
    let fills = tables.fills;
    assert(read_table(nodes, "fills"@, |n: Node| read_fill(n)) == Some(fills)) by {
        let written = fills_node(fills).children;
        assert forall|i: int| 0 <= i < fills.len() implies read_fill(#[trigger] written[i])
            == Some(fills[i]) by {
            lemma_read_fill(fills[i]);
        }
        lemma_read_all_written(fills, written, |n: Node| read_fill(n));
    }
    let borders = tables.borders;
    assert(read_table(nodes, "borders"@, |n: Node| read_border(n)) == Some(borders)) by {
        let written = borders_node(borders).children;
        assert forall|i: int| 0 <= i < borders.len() implies read_border(#[trigger] written[i])
            == Some(borders[i]) by {
            lemma_read_border(borders[i]);
        }
        lemma_read_all_written(borders, written, |n: Node| read_border(n));
    }
    let styles = tables.cell_style_xfs;
    assert(read_table(nodes, "cellStyleXfs"@, |n: Node| read_xf(n, false)) == Some(styles)) by {
        let written = xfs_node(styles, false).children;
        assert forall|i: int| 0 <= i < styles.len() implies read_xf(#[trigger] written[i], false)
            == Some(styles[i]) by {
            assert(xf_is_plain(styles[i]));
            lemma_read_xf(styles[i], false);
        }
        lemma_read_all_written(styles, written, |n: Node| read_xf(n, false));
    }
    let cells = tables.cell_xfs;
    assert(read_table(nodes, "cellXfs"@, |n: Node| read_xf(n, true)) == Some(cells)) by {
        let written = xfs_node(cells, true).children;
        assert forall|i: int| 0 <= i < cells.len() implies read_xf(#[trigger] written[i], true)
            == Some(cells[i]) by {
            assert(xf_is_plain(cells[i]));
            lemma_read_xf(cells[i], true);
        }
        lemma_read_all_written(cells, written, |n: Node| read_xf(n, true));
    }
    assert(read_tables(nodes) == Some(tables));
}

/// Round trip of the style tables: the elements that are written of
/// well-formed tables behind the children of a style sheet's root read
/// back as the tables, whatever the root held before, and also after the
/// children have been put in the order of the schema. So a style sheet
/// that is saved and opened again has the tables that were saved, and is
/// saved to the same XML again.
pub proof fn lemma_saved_styles_read_back(prior: Seq<Node>, tables: StyleModel)
    requires
        tables.wf(),
    ensures
        read_style(prior + style_nodes(tables)) == Some(tables),
        read_style(ordered_nodes(prior + style_nodes(tables), style_order_tags())) == Some(tables),
{
    let nodes = prior + style_nodes(tables);
    let order = style_order_tags();
    lemma_style_table_nodes(prior, tables);
    lemma_read_style_of(nodes, tables);
    lemma_last_named_ordered(nodes, order, "numFmts"@);
    lemma_last_named_ordered(nodes, order, "fonts"@);
    lemma_last_named_ordered(nodes, order, "fills"@);
    lemma_last_named_ordered(nodes, order, "borders"@);
    lemma_last_named_ordered(nodes, order, "cellStyleXfs"@);
    lemma_last_named_ordered(nodes, order, "cellXfs"@);
    lemma_read_style_of(ordered_nodes(nodes, order), tables);
}

} // verus!
