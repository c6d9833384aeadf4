//! The theme's part: the colors and fonts that styles name by place.

use vstd::prelude::*;
use crate::element_dictionary::{theme_content, theme_content_spec};
use crate::xml_document::XmlDocument;
use crate::xml_node::{Node, XmlNode};

verus! {

/// The theme's part.
#[derive(Debug)]
pub struct ThemePart {
    file_name: String,
}

/// One color of the theme's color scheme as an element.
pub open spec fn scheme_color_node(tag: Seq<char>, rgb: Seq<char>) -> Node {
    Node {
        children: seq![Node { attributes: seq![("val"@, rgb)], ..Node::leaf("a:srgbClr"@) }],
        ..Node::leaf(tag)
    }
}

/// A font of the theme's font scheme without a typeface.
pub open spec fn plain_font_node(tag: Seq<char>) -> Node {
    Node { attributes: seq![("typeface"@, ""@)], ..Node::leaf(tag) }
}

/// One font of the theme's font scheme as an element.
pub open spec fn scheme_font_node(tag: Seq<char>, typeface: Seq<char>) -> Node {
    Node {
        children: seq![
            Node { attributes: seq![("typeface"@, typeface)], ..Node::leaf("a:latin"@) },
            plain_font_node("a:ea"@),
            plain_font_node("a:cs"@),
        ],
        ..Node::leaf(tag)
    }
}

/// A fill in the color that the place of use gives.
pub open spec fn plain_fill_node() -> Node {
    Node {
        children: seq![
            Node { attributes: seq![("val"@, "phClr"@)], ..Node::leaf("a:schemeClr"@) },
        ],
        ..Node::leaf("a:solidFill"@)
    }
}

/// A thin line in the color that the place of use gives.
pub open spec fn plain_line_node() -> Node {
    Node {
        attributes: seq![("w"@, "6350"@)],
        children: seq![plain_fill_node()],
        ..Node::leaf("a:ln"@)
    }
}

/// A style of effects without any effect.
pub open spec fn plain_effect_node() -> Node {
    Node { children: seq![Node::leaf("a:effectLst"@)], ..Node::leaf("a:effectStyle"@) }
}

/// An element named `tag` that holds `item` three times.
pub open spec fn three_of(tag: Seq<char>, item: Node) -> Node {
    Node { children: seq![item, item, item], ..Node::leaf(tag) }
}

/// The colors of the theme of a new workbook.
pub open spec fn theme_colors_node() -> Node {
    Node {
        attributes: seq![("name"@, "Office"@)],
        children: seq![
            scheme_color_node("a:dk1"@, "000000"@),
            scheme_color_node("a:lt1"@, "FFFFFF"@),
            scheme_color_node("a:dk2"@, "44546A"@),
            scheme_color_node("a:lt2"@, "E7E6E6"@),
            scheme_color_node("a:accent1"@, "4472C4"@),
            scheme_color_node("a:accent2"@, "ED7D31"@),
            scheme_color_node("a:accent3"@, "A5A5A5"@),
            scheme_color_node("a:accent4"@, "FFC000"@),
            scheme_color_node("a:accent5"@, "5B9BD5"@),
            scheme_color_node("a:accent6"@, "70AD47"@),
            scheme_color_node("a:hlink"@, "0563C1"@),
            scheme_color_node("a:folHlink"@, "954F72"@),
        ],
        ..Node::leaf("a:clrScheme"@)
    }
}

/// The fonts of the theme of a new workbook.
pub open spec fn theme_fonts_node() -> Node {
    Node {
        attributes: seq![("name"@, "Office"@)],
        children: seq![
            scheme_font_node("a:majorFont"@, "Calibri Light"@),
            scheme_font_node("a:minorFont"@, "Calibri"@),
        ],
        ..Node::leaf("a:fontScheme"@)
    }
}

/// The fills, lines and effects of the theme of a new workbook.
pub open spec fn theme_formats_node() -> Node {
    Node {
        attributes: seq![("name"@, "Office"@)],
        children: seq![
            three_of("a:fillStyleLst"@, plain_fill_node()),
            three_of("a:lnStyleLst"@, plain_line_node()),
            three_of("a:effectStyleLst"@, plain_effect_node()),
            three_of("a:bgFillStyleLst"@, plain_fill_node()),
        ],
        ..Node::leaf("a:fmtScheme"@)
    }
}

/// The tree of the theme of a new workbook.
pub open spec fn new_theme_node() -> Node {
    Node {
        attributes: seq![
            ("xmlns:a"@, "http://schemas.openxmlformats.org/drawingml/2006/main"@),
            ("name"@, "Office Theme"@),
        ],
        children: seq![
            Node {
                children: seq![theme_colors_node(), theme_fonts_node(), theme_formats_node()],
                ..Node::leaf("a:themeElements"@)
            },
        ],
        ..Node::leaf("a:theme"@)
    }
}

/// An element named `tag` with the one attribute `name`.
fn with_attribute(tag: &str, name: &str, value: &str) -> (node: XmlNode)
    ensures
        node@ == (Node { attributes: seq![(name@, value@)], ..Node::leaf(tag@) }),
{
    let mut node = XmlNode::new(tag);
    node.push_attribute(name, value.to_owned());
    assert(node@.attributes =~= seq![(name@, value@)]);
    node
}

/// An element named `tag` that holds the three elements given.
fn three(tag: &str, first: XmlNode, second: XmlNode, third: XmlNode) -> (node: XmlNode)
    ensures
        node@ == (Node { children: seq![first@, second@, third@], ..Node::leaf(tag@) }),
{
    let mut node = XmlNode::new(tag);
    node.push_child(first);
    node.push_child(second);
    node.push_child(third);
    assert(node@.children =~= seq![first@, second@, third@]);
    node
}

/// One color of the theme's color scheme as an element.
fn scheme_color(tag: &str, rgb: &str) -> (node: XmlNode)
    ensures
        node@ == scheme_color_node(tag@, rgb@),
{
    let mut node = XmlNode::new(tag);
    node.push_child(with_attribute("a:srgbClr", "val", rgb));
    assert(node@.children =~= scheme_color_node(tag@, rgb@).children);
    node
}

/// One font of the theme's font scheme as an element.
fn scheme_font(tag: &str, typeface: &str) -> (node: XmlNode)
    ensures
        node@ == scheme_font_node(tag@, typeface@),
{
    let mut node = XmlNode::new(tag);
    node.push_child(with_attribute("a:latin", "typeface", typeface));
    node.push_child(with_attribute("a:ea", "typeface", ""));
    node.push_child(with_attribute("a:cs", "typeface", ""));
    assert(node@.children =~= scheme_font_node(tag@, typeface@).children);
    node
}

/// A fill in the color that the place of use gives.
fn plain_fill() -> (node: XmlNode)
    ensures
        node@ == plain_fill_node(),
{
    let mut node = XmlNode::new("a:solidFill");
    node.push_child(with_attribute("a:schemeClr", "val", "phClr"));
    assert(node@.children =~= plain_fill_node().children);
    node
}

/// A thin line in the color that the place of use gives.
fn plain_line() -> (node: XmlNode)
    ensures
        node@ == plain_line_node(),
{
    let mut node = with_attribute("a:ln", "w", "6350");
    node.push_child(plain_fill());
    assert(node@.children =~= plain_line_node().children);
    node
}

/// A style of effects without any effect.
fn plain_effect() -> (node: XmlNode)
    ensures
        node@ == plain_effect_node(),
{
    let mut node = XmlNode::new("a:effectStyle");
    node.push_child(XmlNode::new("a:effectLst"));
    assert(node@.children =~= plain_effect_node().children);
    node
}

impl ThemePart {
    /// The path of the theme's file in the package.
    pub closed spec fn path(&self) -> Seq<char> {
        self.file_name@
    }

    /// The part of the theme whose file is `file_name`.
    pub fn new(file_name: &str) -> (part: Self)
        ensures
            part.path() == file_name@,
    {
        Self { file_name: file_name.to_owned() }
    }

    /// The path of the theme's file in the package.
    pub fn get_file_name(&self) -> (name: &str)
        ensures
            name@ == self.path(),
    {
        self.file_name.as_str()
    }

    /// Initialize xml content for this part from base template
    ///
    /// The theme of a new workbook: the office colors, the office fonts,
    /// and plain fills, lines and effects. With it comes the theme's
    /// content type.
    pub fn initialize_content_xml() -> (res: (XmlDocument, Option<String>))
        ensures
            res.0.wf(),
            res.0@.parent_or_root(None) == Some(1usize),
            res.0@.tree(1) == new_theme_node(),
            res.1 matches Some(content_type) && content_type@
                == theme_content_spec().content_type@,
    {
        let content = theme_content();
        let mut colors = with_attribute("a:clrScheme", "name", "Office");
        colors.push_child(scheme_color("a:dk1", "000000"));
        colors.push_child(scheme_color("a:lt1", "FFFFFF"));
        colors.push_child(scheme_color("a:dk2", "44546A"));
        colors.push_child(scheme_color("a:lt2", "E7E6E6"));
        colors.push_child(scheme_color("a:accent1", "4472C4"));
        colors.push_child(scheme_color("a:accent2", "ED7D31"));
        colors.push_child(scheme_color("a:accent3", "A5A5A5"));
        colors.push_child(scheme_color("a:accent4", "FFC000"));
        colors.push_child(scheme_color("a:accent5", "5B9BD5"));
        colors.push_child(scheme_color("a:accent6", "70AD47"));
        colors.push_child(scheme_color("a:hlink", "0563C1"));
        colors.push_child(scheme_color("a:folHlink", "954F72"));
        assert(colors@.children =~= theme_colors_node().children);
        let mut fonts = with_attribute("a:fontScheme", "name", "Office");
        fonts.push_child(scheme_font("a:majorFont", "Calibri Light"));
        fonts.push_child(scheme_font("a:minorFont", "Calibri"));
        assert(fonts@.children =~= theme_fonts_node().children);
        let mut formats = with_attribute("a:fmtScheme", "name", "Office");
        formats.push_child(three("a:fillStyleLst", plain_fill(), plain_fill(), plain_fill()));
        formats.push_child(three("a:lnStyleLst", plain_line(), plain_line(), plain_line()));
        formats.push_child(
            three("a:effectStyleLst", plain_effect(), plain_effect(), plain_effect()),
        );
        formats.push_child(three("a:bgFillStyleLst", plain_fill(), plain_fill(), plain_fill()));
        assert(formats@.children =~= theme_formats_node().children);
        let mut elements = XmlNode::new("a:themeElements");
        elements.push_child(colors);
        elements.push_child(fonts);
        elements.push_child(formats);
        assert(elements@.children =~= new_theme_node().children[0].children);
        let mut root = XmlNode::new("a:theme");
        root.push_attribute("xmlns:a", content.schemas_namespace.to_owned());
        root.push_attribute("name", "Office Theme".to_owned());
        root.push_child(elements);
        assert(root@.attributes =~= new_theme_node().attributes);
        assert(root@.children =~= new_theme_node().children);
        (XmlDocument::from_tree(&root), Some(content.content_type.to_owned()))
    }
}

} // verus!
